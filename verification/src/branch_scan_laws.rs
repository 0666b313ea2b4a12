//! The ranges of a merged scan cover the same entries in every scope.

use crate::branch_scan::{
    above_start, below_end, bound_key, bound_seq, branch_end, branch_start, in_bounds,
    is_prefix_scan_plan, kind_end, merged_kind, parent_end, parent_start, seek_within,
    slice_bound_seq, slice_position, slice_seq, tombstone_bound, KeyBound, PrefixScanPlan,
    SliceBound,
};
use crate::blob::bytes_seq;
use crate::encoding::{
    be32, lemma_byte_range, lemma_concat_parts, lemma_le_chain, lemma_lex_le_extension,
    lemma_lex_lt_asymmetric, lemma_lex_lt_same_prefix, lemma_lex_lt_total, lemma_lex_lt_transitive,
    lemma_prefix_splits, lemma_starts_with_same_prefix, less_at, lex_le, lex_lt, starts_with,
};
use crate::key_codec::{
    full_key, is_scoped_key, key_header, key_kind, key_suffix, kind_byte, kind_scoped, range_end,
    scoped_suffix_of, tombstone_bound_of, tombstone_header, tombstone_row, KeyPrefix,
};
use crate::key_laws::{
    law_full_key_parts, law_global_layout, law_kind_of_key, law_prefix_range_covers,
    law_prefix_range_exact, law_scoped_key_rebuilds, law_tombstone_bound_re_roots,
};
use crate::layout_laws::law_prefix_and_rest;
use bytes::Bytes;
use vstd::prelude::*;

verus! {

/// A string below a header is below every extension of the header.
proof fn lemma_below_header(h: Seq<u8>, x: Seq<u8>, s: Seq<u8>)
    requires
        lex_lt(x, h),
    ensures
        lex_lt(x, h + s),
        !lex_lt(h + s, x),
        x != h + s,
{
    lemma_lex_le_extension(h, s);
    if h != h + s {
        lemma_lex_lt_transitive(x, h, h + s);
    }
    lemma_lex_lt_asymmetric(x, h + s);
}

/// A string past a header that does not begin with it is past every extension
/// of the header.
proof fn lemma_past_header(h: Seq<u8>, x: Seq<u8>, s: Seq<u8>)
    requires
        !starts_with(x, h),
        !lex_lt(x, h),
    ensures
        lex_lt(h + s, x),
        !lex_lt(x, h + s),
        x != h + s,
{
    lemma_lex_lt_total(x, h);
    assert(h.subrange(0, h.len() as int) =~= h);
    let i = choose|i: int| less_at(h, x, i);
    assert(less_at(h, x, i));
    assert((h + s).subrange(0, i) =~= h.subrange(0, i));
    assert(less_at(h + s, x, i));
    lemma_lex_lt_asymmetric(x, h + s);
}

/// Behind either of two headers, suffixes compare alike.
proof fn lemma_same_suffix_order(h1: Seq<u8>, h2: Seq<u8>, t: Seq<u8>, s: Seq<u8>)
    ensures
        lex_lt(h1 + t, h1 + s) <==> lex_lt(h2 + t, h2 + s),
        lex_lt(h1 + s, h1 + t) <==> lex_lt(h2 + s, h2 + t),
        h1 + t == h1 + s <==> h2 + t == h2 + s,
{
    lemma_lex_lt_same_prefix(h1, t, s);
    lemma_lex_lt_same_prefix(h2, t, s);
    lemma_lex_lt_same_prefix(h1, s, t);
    lemma_lex_lt_same_prefix(h2, s, t);
    lemma_concat_parts(h1, t);
    lemma_concat_parts(h1, s);
    lemma_concat_parts(h2, t);
    lemma_concat_parts(h2, s);
}

/// Every key of `kind`, in whatever scope, comes before the end of the kind.
proof fn lemma_below_kind_end(branch: u32, kind: KeyPrefix, suffix: Seq<u8>)
    ensures
        lex_lt(full_key(branch, kind, suffix), kind_end(kind)),
        lex_le(key_header(0, kind), full_key(branch, kind, suffix)),
{
    let key = full_key(branch, kind, suffix);
    law_full_key_parts(branch, kind, suffix);
    law_kind_of_key(key, kind);
    law_global_layout(0, kind);
    law_prefix_range_exact(0, kind, key);
}

/// An entry is at or past a range's start in the branch's scope exactly when
/// it is in the parent's.
proof fn lemma_start_agrees(
    branch: u32,
    kind: KeyPrefix,
    start: KeyBound<Seq<u8>>,
    suffix: Seq<u8>,
)
    requires
        branch != 0,
        kind_scoped(kind),
        bound_key(start) is Some,
        key_kind(bound_key(start)->0) == Some(kind),
    ensures
        above_start(full_key(branch, kind, suffix), start) <==> above_start(
            full_key(0, kind, suffix),
            parent_start(branch, kind, start),
        ),
        above_start(full_key(branch, kind, suffix), start) <==> above_start(
            full_key(branch, kind, suffix),
            branch_start(branch, kind, start),
        ),
{
    let bound = bound_key(start)->0;
    let header = key_header(branch, kind);
    let root = key_header(0, kind);
    lemma_below_kind_end(0, kind, suffix);
    law_prefix_range_covers(branch, kind, suffix);
    if starts_with(bound, header) {
        law_scoped_key_rebuilds(branch, bound);
        lemma_same_suffix_order(header, root, key_suffix(branch, bound), suffix);
    } else if lex_lt(bound, header) {
        lemma_below_header(header, bound, suffix);
    } else {
        lemma_past_header(header, bound, suffix);
        lemma_lex_lt_asymmetric(full_key(0, kind, suffix), kind_end(kind));
        lemma_lex_lt_asymmetric(full_key(branch, kind, suffix), range_end(branch, kind));
    }
}

/// An entry is at or before a range's end in the branch's scope exactly when
/// it is in the parent's.
proof fn lemma_end_agrees(branch: u32, kind: KeyPrefix, end: KeyBound<Seq<u8>>, suffix: Seq<u8>)
    requires
        branch != 0,
        kind_scoped(kind),
        bound_key(end) is Some,
        bound_key(end)->0 == kind_end(kind) || key_kind(bound_key(end)->0) == Some(kind),
    ensures
        below_end(full_key(branch, kind, suffix), end) <==> below_end(
            full_key(0, kind, suffix),
            parent_end(branch, kind, end),
        ),
        below_end(full_key(branch, kind, suffix), end) <==> below_end(
            full_key(branch, kind, suffix),
            branch_end(branch, kind, end),
        ),
{
    let bound = bound_key(end)->0;
    let header = key_header(branch, kind);
    let root = key_header(0, kind);
    lemma_below_kind_end(0, kind, suffix);
    lemma_below_kind_end(branch, kind, suffix);
    law_prefix_range_covers(branch, kind, suffix);
    if bound != kind_end(kind) {
        if starts_with(bound, header) {
            law_scoped_key_rebuilds(branch, bound);
            lemma_same_suffix_order(header, root, key_suffix(branch, bound), suffix);
        } else if lex_lt(bound, header) {
            lemma_below_header(header, bound, suffix);
            lemma_lex_lt_asymmetric(root, full_key(0, kind, suffix));
            lemma_lex_lt_asymmetric(header, full_key(branch, kind, suffix));
        } else {
            lemma_past_header(header, bound, suffix);
        }
    }
}

/// In a merged scan, an entry lies in the scanned range exactly when its
/// parent row lies in the parent's range, and exactly when its branch row lies
/// in the branch's.
pub proof fn law_scan_ranges_agree(
    branch: u32,
    kind: KeyPrefix,
    start: KeyBound<Seq<u8>>,
    end: KeyBound<Seq<u8>>,
    suffix: Seq<u8>,
)
    requires
        merged_kind(branch, start, end) == Some(kind),
    ensures
        in_bounds(full_key(branch, kind, suffix), start, end) <==> in_bounds(
            full_key(0, kind, suffix),
            parent_start(branch, kind, start),
            parent_end(branch, kind, end),
        ),
        in_bounds(full_key(branch, kind, suffix), start, end) <==> in_bounds(
            full_key(branch, kind, suffix),
            branch_start(branch, kind, start),
            branch_end(branch, kind, end),
        ),
{
    lemma_start_agrees(branch, kind, start, suffix);
    lemma_end_agrees(branch, kind, end, suffix);
}

/// In a merged scan, the tombstone range holds the row that shadows an entry
/// exactly when the entry's parent row lies in the parent's range.
pub proof fn law_tombstone_scan_agrees(
    branch: u32,
    kind: KeyPrefix,
    start: KeyBound<Seq<u8>>,
    end: KeyBound<Seq<u8>>,
    suffix: Seq<u8>,
)
    requires
        merged_kind(branch, start, end) == Some(kind),
    ensures
        in_bounds(
            full_key(0, kind, suffix),
            parent_start(branch, kind, start),
            parent_end(branch, kind, end),
        ) <==> in_bounds(
            tombstone_row(branch, kind, suffix),
            tombstone_bound(branch, parent_start(branch, kind, start))->0,
            tombstone_bound(branch, parent_end(branch, kind, end))->0,
        ),
{
    let root = key_header(0, kind);
    let rows = tombstone_header(branch).push(kind_byte(kind));
    let past = tombstone_header(branch).push((kind_byte(kind) + 1) as u8);
    let empty = Seq::<u8>::empty();
    let from = key_suffix(branch, bound_key(start)->0);
    let to = key_suffix(branch, bound_key(end)->0);
    law_tombstone_bound_re_roots(branch, kind, empty);
    law_tombstone_bound_re_roots(branch, kind, from);
    law_tombstone_bound_re_roots(branch, kind, to);
    assert(root + empty =~= root);
    assert(rows + empty =~= rows);
    lemma_same_suffix_order(root, rows, empty, suffix);
    lemma_same_suffix_order(root, rows, from, suffix);
    lemma_same_suffix_order(root, rows, to, suffix);
    lemma_below_kind_end(0, kind, suffix);
    lemma_concat_parts(rows, suffix);
    lemma_byte_range(tombstone_header(branch), kind_byte(kind), rows + suffix);
    lemma_lex_lt_asymmetric(full_key(0, kind, suffix), kind_end(kind));
    lemma_lex_lt_asymmetric(rows + suffix, past);
}

/// The branch's range of a merged scan holds no row of another scope, among
/// keys that are long enough to hold a branch id.
pub proof fn law_branch_range_own_rows(
    branch: u32,
    kind: KeyPrefix,
    start: KeyBound<Seq<u8>>,
    end: KeyBound<Seq<u8>>,
    key: Seq<u8>,
)
    requires
        merged_kind(branch, start, end) == Some(kind),
        key.len() >= key_header(branch, kind).len(),
        in_bounds(key, branch_start(branch, kind, start), branch_end(branch, kind, end)),
    ensures
        is_scoped_key(branch, key),
        key_kind(key) == Some(kind),
{
    let header = key_header(branch, kind);
    let past = range_end(branch, kind);
    law_prefix_range_exact(branch, kind, key);
    let first = bound_key(start)->0;
    let last = bound_key(end)->0;
    let empty = Seq::<u8>::empty();
    law_prefix_range_covers(branch, kind, empty);
    assert(full_key(branch, kind, empty) =~= header);
    if starts_with(first, header) {
        lemma_prefix_splits(first, header);
        lemma_lex_le_extension(header, first.subrange(header.len() as int, first.len() as int));
    }
    if starts_with(last, header) {
        lemma_prefix_splits(last, header);
        law_prefix_range_covers(
            branch,
            kind,
            last.subrange(header.len() as int, last.len() as int),
        );
    }
    assert(lex_le(header, key)) by {
        lemma_le_chain(header, bound_key(branch_start(branch, kind, start))->0, key);
    }
    assert(lex_lt(key, past)) by {
        lemma_le_chain(key, bound_key(branch_end(branch, kind, end))->0, past);
    }
    lemma_prefix_splits(key, header);
    law_full_key_parts(
        branch,
        kind,
        key.subrange(header.len() as int, key.len() as int),
    );
}

/// In a merged prefix scan, an entry lies under the prefix and at or past the
/// seek point in the branch's scope exactly when it does in the parent's, and
/// a tombstone row lies under the tombstone prefix exactly when its entry lies
/// under the prefix.
pub proof fn law_prefix_scans_agree(
    branch: u32,
    kind: KeyPrefix,
    prefix_suffix: Seq<u8>,
    from: Seq<u8>,
    suffix: Seq<u8>,
)
    requires
        branch != 0,
        kind_scoped(kind),
    ensures
        starts_with(full_key(branch, kind, suffix), full_key(branch, kind, prefix_suffix))
            <==> starts_with(full_key(0, kind, suffix), full_key(0, kind, prefix_suffix)),
        starts_with(full_key(branch, kind, suffix), full_key(branch, kind, prefix_suffix))
            <==> starts_with(
            tombstone_row(branch, kind, suffix),
            tombstone_row(branch, kind, prefix_suffix),
        ),
        lex_le(full_key(branch, kind, prefix_suffix) + from, full_key(branch, kind, suffix))
            <==> lex_le(full_key(0, kind, prefix_suffix) + from, full_key(0, kind, suffix)),
{
    let header = key_header(branch, kind);
    let root = key_header(0, kind);
    let rows = tombstone_header(branch).push(kind_byte(kind));
    lemma_starts_with_same_prefix(header, suffix, prefix_suffix);
    lemma_starts_with_same_prefix(root, suffix, prefix_suffix);
    lemma_starts_with_same_prefix(rows, suffix, prefix_suffix);
    assert(full_key(branch, kind, prefix_suffix) + from =~= header + (prefix_suffix + from));
    assert(full_key(0, kind, prefix_suffix) + from =~= root + (prefix_suffix + from));
    lemma_same_suffix_order(header, root, prefix_suffix + from, suffix);
}

/// The range of a scoped kind under a non-root branch is scanned merged.
pub proof fn law_branch_ranges_are_merged(branch: u32, kind: KeyPrefix)
    requires
        branch != 0,
        kind_scoped(kind),
    ensures
        merged_kind(
            branch,
            KeyBound::Included(key_header(branch, kind)),
            KeyBound::Excluded(range_end(branch, kind)),
        ) == Some(kind),
{
    let empty = Seq::<u8>::empty();
    law_full_key_parts(branch, kind, empty);
    assert(full_key(branch, kind, empty) =~= key_header(branch, kind));
    if branch < u32::MAX {
        let next = (branch + 1) as u32;
        law_full_key_parts(next, kind, empty);
        assert(full_key(next, kind, empty) =~= range_end(branch, kind));
    }
}

/// A root handle scans every range as stored, and so does any handle where the
/// range starts outside the scoped kinds.
pub proof fn law_other_ranges_are_raw(
    branch: u32,
    start: KeyBound<Seq<u8>>,
    end: KeyBound<Seq<u8>>,
)
    requires
        branch == 0 || start == KeyBound::<Seq<u8>>::Unbounded || end == KeyBound::<
            Seq<u8>,
        >::Unbounded || !crate::branch_view::is_scoped_kind(bound_key(start)->0),
    ensures
        merged_kind(branch, start, end) is None,
{
}

/// A bound at `key`, which it takes in or leaves out.
pub open spec fn bound_at(key: Seq<u8>, included: bool) -> KeyBound<Seq<u8>> {
    if included {
        KeyBound::Included(key)
    } else {
        KeyBound::Excluded(key)
    }
}

/// A range is scanned merged exactly if the handle is on a branch, both ends are
/// bounded, the start begins like every key of one scoped kind, and so does the
/// end, unless it is the first key past that kind.
pub proof fn law_merged_exactly_within_one_kind(
    branch: u32,
    kind: KeyPrefix,
    first: Seq<u8>,
    start_included: bool,
    last: Seq<u8>,
    end_included: bool,
)
    ensures
        merged_kind(branch, bound_at(first, start_included), bound_at(last, end_included)) == Some(
            kind,
        ) <==> branch != 0 && kind_scoped(kind) && starts_with(first, key_header(0, kind)) && (
        starts_with(last, key_header(0, kind)) || last == range_end(0, kind)),
{
    law_kind_of_key(first, kind);
    law_kind_of_key(last, kind);
}

/// A range without a start or without an end is never merged.
pub proof fn law_open_ranges_are_raw(branch: u32, bound: KeyBound<Seq<u8>>)
    ensures
        merged_kind(branch, KeyBound::Unbounded, bound) is None,
        merged_kind(branch, bound, KeyBound::Unbounded) is None,
{
}

/// A range between two entries of a scoped kind, each end taken in or left out, is
/// scanned merged under every branch but the root. The parent is scanned between
/// the same entries of its own, the branch as given, and the tombstones between
/// the rows that shadow the two entries.
pub proof fn law_range_between_entries(
    branch: u32,
    kind: KeyPrefix,
    first: Seq<u8>,
    start_included: bool,
    last: Seq<u8>,
    end_included: bool,
)
    requires
        branch != 0,
        kind_scoped(kind),
    ensures
        ({
            let start = bound_at(full_key(branch, kind, first), start_included);
            let end = bound_at(full_key(branch, kind, last), end_included);
            let parent_from = bound_at(full_key(0, kind, first), start_included);
            let parent_to = bound_at(full_key(0, kind, last), end_included);
            &&& merged_kind(branch, start, end) == Some(kind)
            &&& parent_start(branch, kind, start) == parent_from
            &&& parent_end(branch, kind, end) == parent_to
            &&& branch_start(branch, kind, start) == start
            &&& branch_end(branch, kind, end) == end
            &&& tombstone_bound(branch, parent_from) == Some(
                bound_at(tombstone_row(branch, kind, first), start_included),
            )
            &&& tombstone_bound(branch, parent_to) == Some(
                bound_at(tombstone_row(branch, kind, last), end_included),
            )
        }),
{
    law_full_key_parts(branch, kind, first);
    law_full_key_parts(branch, kind, last);
    law_tombstone_bound_re_roots(branch, kind, first);
    law_tombstone_bound_re_roots(branch, kind, last);
    lemma_below_kind_end(branch, kind, last);
    lemma_lex_lt_asymmetric(full_key(branch, kind, last), kind_end(kind));
}

/// The whole of a scoped kind, from its first key to its first key past the end,
/// is scanned merged: all of the parent's, all of the branch's own, and all of
/// the branch's tombstones of that kind.
pub proof fn law_range_of_a_whole_kind(branch: u32, kind: KeyPrefix, end_included: bool)
    requires
        branch != 0,
        kind_scoped(kind),
    ensures
        ({
            let start = KeyBound::Included(key_header(0, kind));
            let end = bound_at(range_end(0, kind), end_included);
            &&& merged_kind(branch, start, end) == Some(kind)
            &&& parent_start(branch, kind, start) == start
            &&& parent_end(branch, kind, end) == end
            &&& branch_start(branch, kind, start) == KeyBound::Included(key_header(branch, kind))
            &&& branch_end(branch, kind, end) == KeyBound::Excluded(range_end(branch, kind))
            &&& tombstone_bound(branch, start) == Some(
                KeyBound::Included(tombstone_row(branch, kind, Seq::empty())),
            )
        }),
{
    let root = key_header(0, kind);
    let header = key_header(branch, kind);
    let empty = Seq::<u8>::empty();
    law_global_layout(0, kind);
    law_kind_of_key(root, kind);
    assert(root.subrange(0, root.len() as int) =~= root);
    assert(full_key(0, kind, empty) =~= root);
    law_tombstone_bound_re_roots(branch, kind, empty);
    assert(header =~= root + be32(branch));
    lemma_lex_le_extension(root, be32(branch));
    assert(!starts_with(root, header));
}

/// The plan of a prefix scan. Under a prefix that is a scoped key of the branch,
/// the parent is scanned under the same prefix of its own, the branch under the
/// prefix as given, both from the same point on, and the tombstones are those
/// that shadow what lies under it.
pub proof fn law_prefix_plan_of_a_branch(
    branch: u32,
    kind: KeyPrefix,
    under: Seq<u8>,
    from: Seq<u8>,
    plan: PrefixScanPlan,
)
    requires
        branch != 0,
        kind_scoped(kind),
        is_prefix_scan_plan(
            branch,
            full_key(branch, kind, under),
            Some(full_key(branch, kind, under + from)),
            plan,
        ) || (from.len() == 0 && is_prefix_scan_plan(
            branch,
            full_key(branch, kind, under),
            None,
            plan,
        )),
    ensures
        match plan {
            PrefixScanPlan::Merged {
                parent_prefix,
                parent_from,
                branch_prefix,
                branch_from,
                tombstone_prefix,
            } => {
                &&& bytes_seq(parent_prefix) == full_key(0, kind, under)
                &&& bytes_seq(parent_from) == from
                &&& bytes_seq(branch_prefix) == full_key(branch, kind, under)
                &&& bytes_seq(branch_from) == from
                &&& bytes_seq(tombstone_prefix) == tombstone_row(branch, kind, under)
            },
            PrefixScanPlan::Raw { .. } => false,
        },
{
    let prefix = full_key(branch, kind, under);
    law_full_key_parts(branch, kind, under);
    assert(full_key(branch, kind, under + from) =~= prefix + from);
    lemma_concat_parts(prefix, from);
    if from.len() == 0 {
        assert(from =~= Seq::empty());
    }
}

/// Every other prefix, and every prefix of a root handle, is scanned as given.
pub proof fn law_other_prefixes_are_raw(
    branch: u32,
    prefix: Seq<u8>,
    from: Seq<u8>,
    plan: PrefixScanPlan,
)
    requires
        branch == 0 || scoped_suffix_of(branch, prefix) is None,
        is_prefix_scan_plan(branch, prefix, Some(prefix + from), plan) || (from.len() == 0
            && is_prefix_scan_plan(branch, prefix, None, plan)),
    ensures
        match plan {
            PrefixScanPlan::Raw { prefix: raw, from: raw_from } => bytes_seq(raw) == prefix
                && bytes_seq(raw_from) == from,
            PrefixScanPlan::Merged { .. } => false,
        },
{
    lemma_concat_parts(prefix, from);
    if from.len() == 0 {
        assert(from =~= Seq::empty());
    }
}

/// A scan may start at a key exactly if the key continues the prefix.
pub proof fn law_seek_continues_the_prefix(prefix: Seq<u8>, key: Seq<u8>)
    ensures
        seek_within(prefix, Some(key)) <==> exists|from: Seq<u8>| key == #[trigger] (prefix + from),
        seek_within(prefix, None),
{
    law_prefix_and_rest(key, prefix);
}

/// Where a bound lies relative to a branch's slice: inside exactly if it is a key
/// of the branch, and then at the parent's key of the same entry; before the
/// slice if it comes before the slice's first key; and past it otherwise.
pub proof fn law_slice_positions(branch: u32, kind: KeyPrefix, suffix: Seq<u8>, key: Seq<u8>)
    requires
        branch != 0,
        kind_scoped(kind),
        key_kind(key) == Some(kind),
    ensures
        slice_position(branch, kind, full_key(branch, kind, suffix)) == SliceBound::Within(
            full_key(0, kind, suffix),
        ),
        slice_position(branch, kind, key) is Within <==> starts_with(key, key_header(branch, kind)),
        slice_position(branch, kind, key) is Before <==> lex_lt(key, key_header(branch, kind)),
{
    law_full_key_parts(branch, kind, suffix);
    let header = key_header(branch, kind);
    if starts_with(key, header) {
        lemma_prefix_splits(key, header);
        lemma_lex_le_extension(header, key.subrange(header.len() as int, key.len() as int));
        lemma_lex_lt_asymmetric(key, header);
        lemma_lex_lt_asymmetric(header, header);
    }
}

/// What a range holds: nothing before its start or past its end, and a bound's own
/// key exactly if the bound takes it in.
pub proof fn law_bounds_of_a_range(
    key: Seq<u8>,
    first: Seq<u8>,
    start_included: bool,
    last: Seq<u8>,
    end_included: bool,
)
    ensures
        in_bounds(key, bound_at(first, start_included), bound_at(last, end_included)) <==> (lex_lt(
            first,
            key,
        ) || (start_included && key == first)) && (lex_lt(key, last) || (end_included && key
            == last)),
        in_bounds(key, KeyBound::Unbounded, bound_at(last, end_included)) <==> lex_lt(key, last)
            || (end_included && key == last),
        in_bounds(key, bound_at(first, start_included), KeyBound::Unbounded) <==> lex_lt(first, key)
            || (start_included && key == first),
        in_bounds(key, KeyBound::Unbounded, KeyBound::Unbounded),
{
    lemma_lex_lt_total(first, key);
    lemma_lex_lt_total(key, last);
    lemma_lex_lt_asymmetric(first, key);
    lemma_lex_lt_asymmetric(key, last);
    lemma_lex_lt_asymmetric(key, key);
}

/// A bound over bytes is the bound over their contents, of the same sort.
pub proof fn law_bounds_keep_their_sort(stored: Bytes, key: &[u8])
    ensures
        bound_seq(KeyBound::Included(stored)) == bound_at(bytes_seq(stored), true),
        bound_seq(KeyBound::Excluded(stored)) == bound_at(bytes_seq(stored), false),
        bound_seq(KeyBound::Unbounded) == KeyBound::<Seq<u8>>::Unbounded,
        slice_seq(KeyBound::Included(key)) == bound_at(key@, true),
        slice_seq(KeyBound::Excluded(key)) == bound_at(key@, false),
        slice_seq(KeyBound::Unbounded) == KeyBound::<Seq<u8>>::Unbounded,
        slice_bound_seq(SliceBound::Within(stored)) == SliceBound::Within(bytes_seq(stored)),
        slice_bound_seq(SliceBound::Before) == SliceBound::<Seq<u8>>::Before,
        slice_bound_seq(SliceBound::After) == SliceBound::<Seq<u8>>::After,
{
}

/// A bound of the parent's range is mapped to tombstones where its key is, and
/// stays of its sort; a missing bound stays missing.
pub proof fn law_tombstone_bounds_keep_their_sort(branch: u32, key: Seq<u8>, included: bool)
    ensures
        tombstone_bound(branch, KeyBound::Unbounded) == Some(KeyBound::<Seq<u8>>::Unbounded),
        tombstone_bound(branch, bound_at(key, included)) == match tombstone_bound_of(branch, key) {
            Some(mapped) => Some(bound_at(mapped, included)),
            None => None,
        },
{
}

} // verus!
