//! Which stored ranges make up a branch's view of a scanned range.
//!
//! A scan through a branch handle over one scoped kind merges two ranges, the
//! parent's and the branch's own, and suppresses what a third range, the
//! branch's tombstones, names. Everything else is scanned as stored.

use crate::blob::{bytes_as_slice, bytes_copy_of, bytes_seq, bytes_tail, opt_seq};
use crate::encoding::{
    has_prefix, key_order, lex_le, lex_lt, same_bytes, starts_with, KeyOrder,
};
use crate::key_codec::{
    full_key, is_scoped_key, key_header, key_kind, key_suffix, kind_scoped, range_end,
    tombstone_bound_of, tombstone_row, KeyCodec, KeyPrefix,
};
use crate::key_laws::law_tombstone_bound_re_roots;
use bytes::Bytes;
use vstd::prelude::*;

verus! {

/// One end of a scanned range.
#[derive(Clone, Copy, Debug)]
pub enum KeyBound<T> {
    Included(T),
    Excluded(T),
    Unbounded,
}

/// The bound over the contents of its buffer.
pub open spec fn bound_seq(bound: KeyBound<Bytes>) -> KeyBound<Seq<u8>> {
    match bound {
        KeyBound::Included(b) => KeyBound::Included(bytes_seq(b)),
        KeyBound::Excluded(b) => KeyBound::Excluded(bytes_seq(b)),
        KeyBound::Unbounded => KeyBound::Unbounded,
    }
}

/// The bound over the contents of its slice.
pub open spec fn slice_seq(bound: KeyBound<&[u8]>) -> KeyBound<Seq<u8>> {
    match bound {
        KeyBound::Included(b) => KeyBound::Included(b@),
        KeyBound::Excluded(b) => KeyBound::Excluded(b@),
        KeyBound::Unbounded => KeyBound::Unbounded,
    }
}

/// `key` is not below the start bound.
pub open spec fn above_start(key: Seq<u8>, start: KeyBound<Seq<u8>>) -> bool {
    match start {
        KeyBound::Included(b) => lex_le(b, key),
        KeyBound::Excluded(b) => lex_lt(b, key),
        KeyBound::Unbounded => true,
    }
}

/// `key` is not above the end bound.
pub open spec fn below_end(key: Seq<u8>, end: KeyBound<Seq<u8>>) -> bool {
    match end {
        KeyBound::Included(b) => lex_le(key, b),
        KeyBound::Excluded(b) => lex_lt(key, b),
        KeyBound::Unbounded => true,
    }
}

/// `key` lies in the range.
pub open spec fn in_bounds(
    key: Seq<u8>,
    start: KeyBound<Seq<u8>>,
    end: KeyBound<Seq<u8>>,
) -> bool {
    above_start(key, start) && below_end(key, end)
}

/// Position of a scan bound relative to a branch's slice of one scoped kind.
pub enum SliceBound<T> {
    /// Below the slice's first key.
    Before,
    /// Inside the slice; the bound without the branch id, which is the same
    /// bound in the parent's view.
    Within(T),
    /// Past every key of the slice.
    After,
}

/// Where `key`, of the scoped `kind`, lies relative to the slice of the
/// non-root `branch`.
pub open spec fn slice_position(branch: u32, kind: KeyPrefix, key: Seq<u8>) -> SliceBound<
    Seq<u8>,
> {
    if starts_with(key, key_header(branch, kind)) {
        SliceBound::Within(full_key(0, kind, key_suffix(branch, key)))
    } else if lex_lt(key, key_header(branch, kind)) {
        SliceBound::Before
    } else {
        SliceBound::After
    }
}

/// The position over the contents of its buffer.
pub open spec fn slice_bound_seq(position: SliceBound<Bytes>) -> SliceBound<Seq<u8>> {
    match position {
        SliceBound::Before => SliceBound::Before,
        SliceBound::Within(b) => SliceBound::Within(bytes_seq(b)),
        SliceBound::After => SliceBound::After,
    }
}

/// Classifies a scan bound against the codec's branch slice of `kind`. `None`
/// when the bound is not of that kind.
pub fn slice_bound(codec: &KeyCodec, kind: KeyPrefix, key: &[u8]) -> (position: Option<
    SliceBound<Bytes>,
>)
    requires
        codec@ != 0,
        kind_scoped(kind),
    ensures
        match position {
            Some(p) => key_kind(key@) == Some(kind) && slice_bound_seq(p) == slice_position(
                codec@,
                kind,
                key@,
            ),
            None => key_kind(key@) != Some(kind),
        },
{
    if codec.peek_kind(key) != Some(kind) {
        return None;
    }
    match codec.strip_branch(key) {
        Some(parent) => Some(SliceBound::Within(parent)),
        None => {
            let (start, _end) = codec.prefix_range(kind);
            match key_order(key, bytes_as_slice(&start)) {
                KeyOrder::Before => Some(SliceBound::Before),
                _ => Some(SliceBound::After),
            }
        },
    }
}

/// The first key past every key of `kind`, in every scope.
pub open spec fn kind_end(kind: KeyPrefix) -> Seq<u8> {
    range_end(0, kind)
}

/// The key of a bound.
pub open spec fn bound_key(bound: KeyBound<Seq<u8>>) -> Option<Seq<u8>> {
    match bound {
        KeyBound::Included(k) => Some(k),
        KeyBound::Excluded(k) => Some(k),
        KeyBound::Unbounded => None,
    }
}

/// The same flavor of bound at another key.
pub open spec fn rebound(bound: KeyBound<Seq<u8>>, key: Seq<u8>) -> KeyBound<Seq<u8>> {
    match bound {
        KeyBound::Included(_) => KeyBound::Included(key),
        KeyBound::Excluded(_) => KeyBound::Excluded(key),
        KeyBound::Unbounded => KeyBound::Unbounded,
    }
}

/// The scoped kind that a range lies within, for a non-root branch: both ends
/// are bounded, the start is a key of the kind, and the end is one too or is
/// the first key past the kind.
pub open spec fn merged_kind(
    branch: u32,
    start: KeyBound<Seq<u8>>,
    end: KeyBound<Seq<u8>>,
) -> Option<KeyPrefix> {
    match (bound_key(start), bound_key(end)) {
        (Some(first), Some(last)) => match key_kind(first) {
            Some(kind) => if branch != 0 && kind_scoped(kind) && (last == kind_end(kind)
                || key_kind(last) == Some(kind)) {
                Some(kind)
            } else {
                None
            },
            None => None,
        },
        _ => None,
    }
}

/// The parent-view start of a range within `kind`.
pub open spec fn parent_start(
    branch: u32,
    kind: KeyPrefix,
    start: KeyBound<Seq<u8>>,
) -> KeyBound<Seq<u8>> {
    match slice_position(branch, kind, bound_key(start)->0) {
        SliceBound::Before => KeyBound::Included(key_header(0, kind)),
        SliceBound::Within(parent) => rebound(start, parent),
        SliceBound::After => KeyBound::Included(kind_end(kind)),
    }
}

/// The parent-view end of a range within `kind`.
pub open spec fn parent_end(branch: u32, kind: KeyPrefix, end: KeyBound<Seq<u8>>) -> KeyBound<
    Seq<u8>,
> {
    if bound_key(end)->0 == kind_end(kind) {
        end
    } else {
        match slice_position(branch, kind, bound_key(end)->0) {
            SliceBound::Before => KeyBound::Excluded(key_header(0, kind)),
            SliceBound::Within(parent) => rebound(end, parent),
            SliceBound::After => KeyBound::Excluded(kind_end(kind)),
        }
    }
}

/// Maps a branch-view range to the equivalent parent-view bounds. `None` (root
/// handle, unscoped kind, whole-keyspace or cross-kind range) leaves the range
/// to be scanned as stored.
pub fn branch_parent_range(
    codec: &KeyCodec,
    start: KeyBound<&[u8]>,
    end: KeyBound<&[u8]>,
) -> (range: Option<(KeyBound<Bytes>, KeyBound<Bytes>)>)
    ensures
        match range {
            Some((ps, pe)) => {
                &&& merged_kind(codec@, slice_seq(start), slice_seq(end)) is Some
                &&& bound_seq(ps) == parent_start(
                    codec@,
                    merged_kind(codec@, slice_seq(start), slice_seq(end))->0,
                    slice_seq(start),
                )
                &&& bound_seq(pe) == parent_end(
                    codec@,
                    merged_kind(codec@, slice_seq(start), slice_seq(end))->0,
                    slice_seq(end),
                )
            },
            None => merged_kind(codec@, slice_seq(start), slice_seq(end)) is None,
        },
{
    if codec.branch().is_root() {
        return None;
    }
    let (start_key, start_included) = match start {
        KeyBound::Included(k) => (k, true),
        KeyBound::Excluded(k) => (k, false),
        // Whole-keyspace scans span kinds; merging them is ill-defined.
        KeyBound::Unbounded => return None,
    };
    let (end_key, end_included) = match end {
        KeyBound::Included(k) => (k, true),
        KeyBound::Excluded(k) => (k, false),
        // An unbounded end spans into later kinds; keep the raw view.
        KeyBound::Unbounded => return None,
    };
    let kind = match codec.peek_kind(start_key) {
        Some(kind) => kind,
        None => return None,
    };
    if !kind.is_scoped() {
        return None;
    }
    let root = KeyCodec::new();
    let (kind_first, kind_past) = root.prefix_range(kind);
    let parent_end = if same_bytes(end_key, bytes_as_slice(&kind_past)) {
        let past = kind_past.clone();
        if end_included {
            KeyBound::Included(past)
        } else {
            KeyBound::Excluded(past)
        }
    } else {
        match slice_bound(codec, kind, end_key) {
            None => return None,
            // Below the slice: the merged range is empty.
            Some(SliceBound::Before) => KeyBound::Excluded(kind_first.clone()),
            Some(SliceBound::Within(parent)) => if end_included {
                KeyBound::Included(parent)
            } else {
                KeyBound::Excluded(parent)
            },
            Some(SliceBound::After) => KeyBound::Excluded(kind_past.clone()),
        }
    };
    let parent_start = match slice_bound(codec, kind, start_key) {
        None => return None,
        Some(SliceBound::Before) => KeyBound::Included(kind_first),
        Some(SliceBound::Within(parent)) => if start_included {
            KeyBound::Included(parent)
        } else {
            KeyBound::Excluded(parent)
        },
        // Past the slice: the merged range is empty.
        Some(SliceBound::After) => KeyBound::Included(kind_past),
    };
    Some((parent_start, parent_end))
}

/// The start of the branch's own rows of a range within `kind`: the range's
/// start, moved into the branch's slice where it lies outside.
pub open spec fn branch_start(
    branch: u32,
    kind: KeyPrefix,
    start: KeyBound<Seq<u8>>,
) -> KeyBound<Seq<u8>> {
    match slice_position(branch, kind, bound_key(start)->0) {
        SliceBound::Before => KeyBound::Included(key_header(branch, kind)),
        SliceBound::Within(_) => start,
        SliceBound::After => KeyBound::Included(range_end(branch, kind)),
    }
}

/// The end of the branch's own rows of a range within `kind`.
pub open spec fn branch_end(branch: u32, kind: KeyPrefix, end: KeyBound<Seq<u8>>) -> KeyBound<
    Seq<u8>,
> {
    if bound_key(end)->0 == kind_end(kind) {
        KeyBound::Excluded(range_end(branch, kind))
    } else {
        match slice_position(branch, kind, bound_key(end)->0) {
            SliceBound::Before => KeyBound::Excluded(key_header(branch, kind)),
            SliceBound::Within(_) => end,
            SliceBound::After => KeyBound::Excluded(range_end(branch, kind)),
        }
    }
}

/// A parent-view bound as a bound on the branch's tombstone rows.
pub open spec fn tombstone_bound(branch: u32, bound: KeyBound<Seq<u8>>) -> Option<
    KeyBound<Seq<u8>>,
> {
    match bound_key(bound) {
        Some(key) => match tombstone_bound_of(branch, key) {
            Some(mapped) => Some(rebound(bound, mapped)),
            None => None,
        },
        None => Some(KeyBound::Unbounded),
    }
}

/// A merged-scan bound that has no place among the tombstone rows.
#[derive(Clone, Copy, Debug, PartialEq, Eq, Structural)]
pub enum UnmappableBound {
    Start,
    End,
}

/// Moves one parent-view bound to the tombstone rows of the codec's branch.
fn map_tombstone_bound(codec: &KeyCodec, bound: &KeyBound<Bytes>) -> (mapped: Option<
    KeyBound<Bytes>,
>)
    ensures
        match mapped {
            Some(m) => tombstone_bound(codec@, bound_seq(*bound)) == Some(bound_seq(m)),
            None => tombstone_bound(codec@, bound_seq(*bound)) is None,
        },
{
    match bound {
        KeyBound::Included(b) => match codec.branch_tombstone_bound(bytes_as_slice(b)) {
            Some(m) => Some(KeyBound::Included(m)),
            None => None,
        },
        KeyBound::Excluded(b) => match codec.branch_tombstone_bound(bytes_as_slice(b)) {
            Some(m) => Some(KeyBound::Excluded(m)),
            None => None,
        },
        KeyBound::Unbounded => Some(KeyBound::Unbounded),
    }
}

/// The range of tombstone rows that a merged scan of the given parent-view
/// bounds has to read.
pub fn branch_tombstone_bounds(
    codec: &KeyCodec,
    start: &KeyBound<Bytes>,
    end: &KeyBound<Bytes>,
) -> (range: Result<(KeyBound<Bytes>, KeyBound<Bytes>), UnmappableBound>)
    ensures
        match range {
            Ok((ts, te)) => tombstone_bound(codec@, bound_seq(*start)) == Some(bound_seq(ts))
                && tombstone_bound(codec@, bound_seq(*end)) == Some(bound_seq(te)),
            Err(UnmappableBound::Start) => tombstone_bound(codec@, bound_seq(*start)) is None,
            Err(UnmappableBound::End) => tombstone_bound(codec@, bound_seq(*start)) is Some
                && tombstone_bound(codec@, bound_seq(*end)) is None,
        },
{
    let ts = match map_tombstone_bound(codec, start) {
        Some(ts) => ts,
        None => return Err(UnmappableBound::Start),
    };
    match map_tombstone_bound(codec, end) {
        Some(te) => Ok((ts, te)),
        None => Err(UnmappableBound::End),
    }
}

/// The stored ranges that a range scan reads.
pub enum ScanPlan {
    /// The range as given.
    Raw,
    /// The parent's rows, the branch's own rows, and its tombstones.
    Merged {
        parent: (KeyBound<Bytes>, KeyBound<Bytes>),
        branch: (KeyBound<Bytes>, KeyBound<Bytes>),
        tombstones: (KeyBound<Bytes>, KeyBound<Bytes>),
    },
}

/// The branch-side bounds of a range that lies within `kind`.
fn branch_own_range(
    codec: &KeyCodec,
    kind: KeyPrefix,
    start: KeyBound<&[u8]>,
    end: KeyBound<&[u8]>,
) -> (range: (KeyBound<Bytes>, KeyBound<Bytes>))
    requires
        merged_kind(codec@, slice_seq(start), slice_seq(end)) == Some(kind),
    ensures
        bound_seq(range.0) == branch_start(codec@, kind, slice_seq(start)),
        bound_seq(range.1) == branch_end(codec@, kind, slice_seq(end)),
{
    let (first, past) = codec.prefix_range(kind);
    let root = KeyCodec::new();
    let (_kind_first, kind_past) = root.prefix_range(kind);
    let branch_start = match start {
        KeyBound::Included(k) => match slice_bound(codec, kind, k) {
            Some(SliceBound::Before) => KeyBound::Included(first.clone()),
            Some(SliceBound::Within(_)) => KeyBound::Included(bytes_copy_of(k)),
            _ => KeyBound::Included(past.clone()),
        },
        KeyBound::Excluded(k) => match slice_bound(codec, kind, k) {
            Some(SliceBound::Before) => KeyBound::Included(first.clone()),
            Some(SliceBound::Within(_)) => KeyBound::Excluded(bytes_copy_of(k)),
            _ => KeyBound::Included(past.clone()),
        },
        KeyBound::Unbounded => KeyBound::Unbounded,
    };
    let branch_end = match end {
        KeyBound::Included(k) => if same_bytes(k, bytes_as_slice(&kind_past)) {
            KeyBound::Excluded(past)
        } else {
            match slice_bound(codec, kind, k) {
                Some(SliceBound::Before) => KeyBound::Excluded(first),
                Some(SliceBound::Within(_)) => KeyBound::Included(bytes_copy_of(k)),
                _ => KeyBound::Excluded(past),
            }
        },
        KeyBound::Excluded(k) => if same_bytes(k, bytes_as_slice(&kind_past)) {
            KeyBound::Excluded(past)
        } else {
            match slice_bound(codec, kind, k) {
                Some(SliceBound::Before) => KeyBound::Excluded(first),
                Some(SliceBound::Within(_)) => KeyBound::Excluded(bytes_copy_of(k)),
                _ => KeyBound::Excluded(past),
            }
        },
        KeyBound::Unbounded => KeyBound::Unbounded,
    };
    (branch_start, branch_end)
}

/// Plans a range scan through a handle on the codec's branch.
pub fn plan_scan(codec: &KeyCodec, start: KeyBound<&[u8]>, end: KeyBound<&[u8]>) -> (plan: Result<
    ScanPlan,
    UnmappableBound,
>)
    ensures
        match plan {
            Ok(ScanPlan::Raw) => merged_kind(codec@, slice_seq(start), slice_seq(end)) is None,
            Ok(ScanPlan::Merged { parent, branch, tombstones }) => {
                let kind = merged_kind(codec@, slice_seq(start), slice_seq(end));
                &&& kind is Some
                &&& bound_seq(parent.0) == parent_start(codec@, kind->0, slice_seq(start))
                &&& bound_seq(parent.1) == parent_end(codec@, kind->0, slice_seq(end))
                &&& bound_seq(branch.0) == branch_start(codec@, kind->0, slice_seq(start))
                &&& bound_seq(branch.1) == branch_end(codec@, kind->0, slice_seq(end))
                &&& Some(bound_seq(tombstones.0)) == tombstone_bound(codec@, bound_seq(parent.0))
                &&& Some(bound_seq(tombstones.1)) == tombstone_bound(codec@, bound_seq(parent.1))
            },
            Err(_) => false,
        },
{
    let start_key = match start {
        KeyBound::Included(k) => k,
        KeyBound::Excluded(k) => k,
        KeyBound::Unbounded => return Ok(ScanPlan::Raw),
    };
    let kind = match codec.peek_kind(start_key) {
        Some(kind) => kind,
        None => return Ok(ScanPlan::Raw),
    };
    match branch_parent_range(codec, start, end) {
        Some((ps, pe)) => {
            proof {
                lemma_parent_bounds_map(codec@, kind, slice_seq(start), slice_seq(end));
            }
            match branch_tombstone_bounds(codec, &ps, &pe) {
                Ok(tombstones) => Ok(
                    ScanPlan::Merged {
                        parent: (ps, pe),
                        branch: branch_own_range(codec, kind, start, end),
                        tombstones,
                    },
                ),
                Err(e) => Err(e),
            }
        },
        None => Ok(ScanPlan::Raw),
    }
}

/// Both parent-view bounds have a place among the tombstone rows.
proof fn lemma_parent_bounds_map(
    branch: u32,
    kind: KeyPrefix,
    start: KeyBound<Seq<u8>>,
    end: KeyBound<Seq<u8>>,
)
    requires
        merged_kind(branch, start, end) == Some(kind),
    ensures
        tombstone_bound(branch, parent_start(branch, kind, start)) is Some,
        tombstone_bound(branch, parent_end(branch, kind, end)) is Some,
{
    law_tombstone_bound_re_roots(branch, kind, Seq::empty());
    assert(full_key(0, kind, Seq::empty()) =~= key_header(0, kind));
    law_tombstone_bound_re_roots(branch, kind, key_suffix(branch, bound_key(start)->0));
    law_tombstone_bound_re_roots(branch, kind, key_suffix(branch, bound_key(end)->0));
}

/// The stored prefix scans that a prefix scan reads. Each operand is a prefix
/// and the suffix relative to it at which the scan starts.
pub enum PrefixScanPlan {
    /// The prefix as given.
    Raw { prefix: Bytes, from: Bytes },
    /// The parent's rows, the branch's own rows, and all tombstones under the
    /// prefix.
    Merged {
        parent_prefix: Bytes,
        parent_from: Bytes,
        branch_prefix: Bytes,
        branch_from: Bytes,
        tombstone_prefix: Bytes,
    },
}

/// Where a prefix scan starts, relative to the prefix.
pub open spec fn seek_suffix(prefix: Seq<u8>, seek_to: Option<Seq<u8>>) -> Seq<u8> {
    match seek_to {
        Some(key) => key.subrange(prefix.len() as int, key.len() as int),
        None => Seq::empty(),
    }
}

/// `plan` is the plan of a scan of `prefix` through a handle on `branch`, from
/// `seek_to` on. The start is mapped into both scopes.
pub open spec fn is_prefix_scan_plan(
    branch: u32,
    prefix: Seq<u8>,
    seek_to: Option<Seq<u8>>,
    plan: PrefixScanPlan,
) -> bool {
    match plan {
        PrefixScanPlan::Raw { prefix: raw, from } => {
            &&& branch == 0 || !is_scoped_key(branch, prefix)
            &&& bytes_seq(raw) == prefix
            &&& bytes_seq(from) == seek_suffix(prefix, seek_to)
        },
        PrefixScanPlan::Merged {
            parent_prefix,
            parent_from,
            branch_prefix,
            branch_from,
            tombstone_prefix,
        } => {
            let suffix = key_suffix(branch, prefix);
            let kind = key_kind(prefix)->0;
            &&& branch != 0 && is_scoped_key(branch, prefix)
            &&& bytes_seq(parent_prefix) == full_key(0, kind, suffix)
            &&& bytes_seq(parent_from) == seek_suffix(prefix, seek_to)
            &&& bytes_seq(branch_prefix) == prefix
            &&& bytes_seq(branch_from) == seek_suffix(prefix, seek_to)
            &&& bytes_seq(tombstone_prefix) == tombstone_row(branch, kind, suffix)
        },
    }
}

/// `seek_to` is a full key within the prefix.
pub open spec fn seek_within(prefix: Seq<u8>, seek_to: Option<Seq<u8>>) -> bool {
    match seek_to {
        Some(key) => starts_with(key, prefix),
        None => true,
    }
}

/// The key to start a prefix scan from is not one of the prefix's.
#[derive(Clone, Copy, Debug, PartialEq, Eq, Structural)]
pub struct SeekOutsidePrefix;

/// Plans a prefix scan through a handle on the codec's branch, from any key: one
/// that does not lie within the prefix is refused.
pub fn plan_scan_prefix_from(codec: &KeyCodec, prefix: Bytes, seek_to: Option<Bytes>) -> (plan:
    Result<PrefixScanPlan, SeekOutsidePrefix>)
    ensures
        match plan {
            Ok(p) => seek_within(bytes_seq(prefix), opt_seq(seek_to)) && is_prefix_scan_plan(
                codec@,
                bytes_seq(prefix),
                opt_seq(seek_to),
                p,
            ),
            Err(_) => !seek_within(bytes_seq(prefix), opt_seq(seek_to)),
        },
{
    match &seek_to {
        Some(key) => if !has_prefix(bytes_as_slice(key), bytes_as_slice(&prefix)) {
            return Err(SeekOutsidePrefix);
        },
        None => {},
    }
    Ok(plan_scan_prefix(codec, prefix, seek_to))
}

/// Plans a prefix scan through a handle on the codec's branch. `seek_to` is a
/// full key within the prefix, from which the scan starts.
pub fn plan_scan_prefix(codec: &KeyCodec, prefix: Bytes, seek_to: Option<Bytes>) -> (plan:
    PrefixScanPlan)
    requires
        seek_within(bytes_seq(prefix), opt_seq(seek_to)),
    ensures
        is_prefix_scan_plan(codec@, bytes_seq(prefix), opt_seq(seek_to), plan),
{
    let p = bytes_as_slice(&prefix);
    let from = match &seek_to {
        Some(key) => bytes_tail(key, p.len()),
        None => bytes_copy_of(&[]),
    };
    assert(bytes_seq(from) =~= seek_suffix(bytes_seq(prefix), opt_seq(seek_to)));
    match (codec.strip_branch(p), codec.branch_tombstone_key(p)) {
        (Some(parent_prefix), Some(tombstone_prefix)) => PrefixScanPlan::Merged {
            parent_prefix,
            parent_from: from.clone(),
            branch_prefix: prefix.clone(),
            branch_from: from,
            tombstone_prefix,
        },
        _ => PrefixScanPlan::Raw { prefix: prefix.clone(), from },
    }
}

} // verus!
