//! The manifest of a volume at a point in time: the last one flushed at or
//! before it.
//!
//! The volume's own flush-time index answers with no object-store I/O. Where
//! it has no row at or before the target, the manifest objects are listed;
//! each is stamped with the time it was published.

use crate::instant::{at_or_before, is_at_or_before};
use crate::key_codec::{full_key, key_header, KeyCodec, KeyPrefix};
use crate::key_laws::law_flush_time_key_round_trip;
use crate::layout_laws::{
    law_big_endian_reads_what_is_written, law_key_bytes, law_stored_flush_time,
};
use crate::encoding::{be64, be64_value, le32, le64, starts_with};
use crate::path::{lemma_split_nonempty, path_filename, path_raw, split_slashes};
use crate::text::{
    law_stripped_suffix_completes, parse_u64, parsed_u64, strip_suffix, stripped_suffix,
};
use crate::value_codec::{flush_time_bytes, flush_time_of};
use object_store::path::Path;
use vstd::prelude::*;

verus! {

/// The manifest id in a `{db path}/manifest/{id}.manifest` key.
pub open spec fn manifest_id_of(location: Seq<char>) -> Option<u64> {
    if location.len() == 0 {
        None
    } else {
        match stripped_suffix(split_slashes(location).last(), ".manifest"@) {
            Some(id) => parsed_u64(id, 10),
            None => None,
        }
    }
}

/// The manifest id in a `{db path}/manifest/{id}.manifest` key.
pub fn parse_manifest_id(location: &Path) -> (id: Option<u64>)
    ensures
        id == manifest_id_of(path_raw(*location)),
{
    match path_filename(location) {
        Some(filename) => match strip_suffix(filename, ".manifest") {
            Some(id) => parse_u64(id, 10),
            None => None,
        },
        None => None,
    }
}

/// The manifest id in a key of the flush-time index.
pub open spec fn index_manifest_id(key: Seq<u8>) -> Option<u64> {
    if key.len() == 13 && starts_with(key, key_header(0, KeyPrefix::FlushTime)) {
        Some(be64_value(key.subrange(5, 13)))
    } else {
        None
    }
}

/// The manifest that a row of the flush-time index offers for a target: the
/// row is well formed, and its time is not after the target. Index times do
/// not reach back before the epoch, so an earlier target matches none.
pub open spec fn indexed_candidate(target: (i64, u32), key: Seq<u8>, value: Seq<u8>) -> Option<
    u64,
> {
    match (index_manifest_id(key), flush_time_of(value)) {
        (Some(id), Some((secs, nanos))) => if target.0 >= 0 && (secs < target.0 || (secs
            == target.0 && nanos <= target.1)) {
            Some(id)
        } else {
            None
        },
        _ => None,
    }
}

/// The manifest that a listed object offers for a target: its name is a
/// manifest's, and it was not modified after the target.
pub open spec fn listed_candidate(
    target: (i64, u32),
    location: Seq<char>,
    modified: (i64, u32),
) -> Option<u64> {
    match manifest_id_of(location) {
        Some(id) => if at_or_before(modified, target) {
            Some(id)
        } else {
            None
        },
        None => None,
    }
}

/// The greater of what was found so far and one more candidate.
pub open spec fn greater(best: Option<u64>, candidate: Option<u64>) -> Option<u64> {
    match (best, candidate) {
        (Some(b), Some(c)) => if c > b {
            Some(c)
        } else {
            Some(b)
        },
        (None, c) => c,
        (b, None) => b,
    }
}

/// The greatest of all candidates.
pub open spec fn greatest(candidates: Seq<Option<u64>>) -> Option<u64>
    decreases candidates.len(),
{
    if candidates.len() == 0 {
        None
    } else {
        greater(greatest(candidates.drop_last()), candidates.last())
    }
}

/// The greatest candidate is one of them, and none exceeds it; there is none
/// only if no candidate is.
pub proof fn law_greatest_is_greatest(candidates: Seq<Option<u64>>)
    ensures
        match greatest(candidates) {
            Some(best) => candidates.contains(Some(best)) && forall|i: int|
                0 <= i < candidates.len() && (#[trigger] candidates[i]) is Some ==> candidates[i]->0
                    <= best,
            None => forall|i: int| 0 <= i < candidates.len() ==> (#[trigger] candidates[i]) is None,
        },
    decreases candidates.len(),
{
    if candidates.len() > 0 {
        let init = candidates.drop_last();
        law_greatest_is_greatest(init);
        let last = candidates.len() - 1;
        assert(candidates[last] == candidates.last());
        match greatest(candidates) {
            Some(best) => {
                if init.contains(Some(best)) {
                    let i = choose|i: int| 0 <= i < init.len() && init[i] == Some(best);
                    assert(candidates[i] == Some(best));
                }
                assert forall|i: int|
                    0 <= i < candidates.len() && (
                    #[trigger] candidates[i]) is Some implies candidates[i]->0 <= best by {
                    if i < last {
                        assert(init[i] == candidates[i]);
                    }
                }
            },
            None => {
                assert forall|i: int| 0 <= i < candidates.len() implies (
                #[trigger] candidates[i]) is None by {
                    if i < last {
                        assert(init[i] == candidates[i]);
                    }
                }
            },
        }
    }
}

/// A search for the last manifest at or before a target.
pub struct ManifestSearch {
    target: (i64, u32),
    best: Option<u64>,
}

impl ManifestSearch {
    /// The moment searched for.
    pub closed spec fn target(self) -> (i64, u32) {
        self.target
    }

    /// The greatest manifest found so far.
    pub closed spec fn best(self) -> Option<u64> {
        self.best
    }

    pub fn new(target: (i64, u32)) -> (search: Self)
        ensures
            search.target() == target,
            search.best() is None,
    {
        ManifestSearch { target, best: None }
    }

    fn offer(&mut self, id: u64)
        ensures
            final(self).target() == old(self).target(),
            final(self).best() == greater(old(self).best(), Some(id)),
    {
        match self.best {
            Some(best) => if id > best {
                self.best = Some(id);
            },
            None => {
                self.best = Some(id);
            },
        }
    }

    /// Takes a row of the flush-time index.
    pub fn observe_index_row(&mut self, key: &[u8], value: &[u8])
        ensures
            final(self).target() == old(self).target(),
            final(self).best() == greater(
                old(self).best(),
                indexed_candidate(old(self).target(), key@, value@),
            ),
    {
        let codec = KeyCodec::new();
        let id: u64 = match codec.parse_flush_time_key(key) {
            Some(id) => id,
            None => return ,
        };
        let (secs, nanos) = match KeyCodec::decode_flush_time(value) {
            Some(time) => time,
            None => return ,
        };
        if self.target.0 >= 0 && (secs < self.target.0 as u64 || (secs == self.target.0 as u64
            && nanos <= self.target.1)) {
            self.offer(id);
        }
    }

    /// Takes an object of a manifest listing and when it was last modified.
    pub fn observe_listed(&mut self, location: &Path, modified: (i64, u32))
        ensures
            final(self).target() == old(self).target(),
            final(self).best() == greater(
                old(self).best(),
                listed_candidate(old(self).target(), path_raw(*location), modified),
            ),
    {
        match parse_manifest_id(location) {
            Some(id) => if is_at_or_before(modified, self.target) {
                self.offer(id);
            },
            None => {},
        }
    }

    /// The manifest found, if any.
    pub fn found(&self) -> (id: Option<u64>)
        ensures
            id == self.best(),
    {
        self.best
    }
}

/// A look-up of the manifest at a point in time: the index first, and the
/// listing only where the index has nothing.
pub enum ManifestLookup {
    /// Scan the flush-time index.
    Index(ManifestSearch),
    /// The index has no row at or before the target: list the manifests.
    Listing(ManifestSearch),
    Found(u64),
    /// There is no manifest at or before the target.
    NotFound,
}

impl ManifestLookup {
    pub fn begin(target: (i64, u32)) -> (lookup: Self)
        ensures
            match lookup {
                ManifestLookup::Index(search) => search.target() == target && search.best() is None,
                _ => false,
            },
    {
        ManifestLookup::Index(ManifestSearch::new(target))
    }

    /// The scan that was under way has ended.
    pub fn scanned(self) -> (next: Self)
        ensures
            match self {
                ManifestLookup::Index(search) => match search.best() {
                    Some(id) => next == ManifestLookup::Found(id),
                    None => match next {
                        ManifestLookup::Listing(listing) => listing.target() == search.target()
                            && listing.best() is None,
                        _ => false,
                    },
                },
                ManifestLookup::Listing(search) => next == match search.best() {
                    Some(id) => ManifestLookup::Found(id),
                    None => ManifestLookup::NotFound,
                },
                _ => next == self,
            },
    {
        match self {
            ManifestLookup::Index(search) => match search.found() {
                Some(id) => ManifestLookup::Found(id),
                None => ManifestLookup::Listing(ManifestSearch::new(search.target)),
            },
            ManifestLookup::Listing(search) => match search.found() {
                Some(id) => ManifestLookup::Found(id),
                None => ManifestLookup::NotFound,
            },
            other => other,
        }
    }
}

/// The greater of two candidates is one of them, and neither exceeds it; there is
/// none only if neither is.
pub proof fn law_greater_is_the_maximum(best: Option<u64>, candidate: Option<u64>)
    ensures
        greater(best, candidate) == best || greater(best, candidate) == candidate,
        best is Some ==> greater(best, candidate) is Some && best->0 <= greater(
            best,
            candidate,
        )->0,
        candidate is Some ==> greater(best, candidate) is Some && candidate->0 <= greater(
            best,
            candidate,
        )->0,
{
}

/// Which rows of the flush-time index are candidates. The row of manifest `id`,
/// flushed at `secs` and `nanos`, offers `id` exactly if its nanoseconds since
/// the epoch do not exceed the target's: every row of an earlier second does,
/// whatever its nanoseconds, and no row does for a target before the epoch.
pub proof fn law_indexed_manifest_by_time(target: (i64, u32), id: u64, secs: u64, nanos: u32)
    ensures
        ({
            let key = full_key(0, KeyPrefix::FlushTime, be64(id));
            let value = seq![1u8] + le64(secs) + le32(nanos);
            let candidate = indexed_candidate(target, key, value);
            &&& candidate is Some ==> candidate == Some(id)
            &&& target.0 >= 0 && nanos < 1_000_000_000 && target.1 < 1_000_000_000 ==> (candidate
                is Some <==> secs * 1_000_000_000 + nanos <= target.0 * 1_000_000_000 + target.1)
            &&& target.0 >= 0 && secs < target.0 ==> candidate is Some
            &&& target.0 >= 0 && secs > target.0 ==> candidate is None
            &&& target.0 >= 0 && secs == target.0 ==> (candidate is Some <==> nanos <= target.1)
            &&& target.0 < 0 ==> candidate is None
        }),
{
    let key = full_key(0, KeyPrefix::FlushTime, be64(id));
    let value = seq![1u8] + le64(secs) + le32(nanos);
    law_flush_time_key_round_trip(0, id);
    law_stored_flush_time(value, secs, nanos);
}

/// Only the row of a manifest's flush time, in full, is a candidate.
pub proof fn law_only_flush_times_are_indexed(target: (i64, u32), key: Seq<u8>, value: Seq<u8>)
    ensures
        indexed_candidate(target, key, value) is Some ==> key == full_key(
            0,
            KeyPrefix::FlushTime,
            be64(indexed_candidate(target, key, value)->0),
        ) && exists|secs: u64, nanos: u32|
            value == #[trigger] flush_time_bytes(secs, nanos) && target.0 >= 0 && (secs < target.0
                || (secs == target.0 && nanos <= target.1)),
{
    if indexed_candidate(target, key, value) is Some {
        let id = indexed_candidate(target, key, value)->0;
        let header = key_header(0, KeyPrefix::FlushTime);
        law_key_bytes(0, KeyPrefix::FlushTime, be64(id));
        law_big_endian_reads_what_is_written(key.subrange(5, 13), id);
        assert(key =~= key.subrange(0, 5) + key.subrange(5, 13));
        let time = flush_time_of(value)->0;
        law_stored_flush_time(value, time.0, time.1);
        assert(value == flush_time_bytes(time.0, time.1));
    }
}

/// A listed object is a candidate exactly if its name is a manifest's and it was
/// modified at or before the target, and then it offers the manifest of that
/// name.
pub proof fn law_listed_manifest_by_time(
    target: (i64, u32),
    location: Seq<char>,
    modified: (i64, u32),
    id: u64,
)
    ensures
        listed_candidate(target, location, modified) == Some(id) <==> manifest_id_of(location)
            == Some(id) && (modified.0 < target.0 || (modified.0 == target.0 && modified.1
            <= target.1)),
{
}

/// The last piece of a text is what follows its last slash.
proof fn lemma_last_piece(head: Seq<char>, name: Seq<char>)
    requires
        head.len() == 0 || head.last() == '/',
        forall|i: int| 0 <= i < name.len() ==> #[trigger] name[i] != '/',
    ensures
        split_slashes(head + name).last() == name,
        split_slashes(head + name).len() > 0,
    decreases name.len(),
{
    let text = head + name;
    lemma_split_nonempty(text);
    if name.len() == 0 {
        assert(text =~= head);
        if head.len() > 0 {
            assert(split_slashes(text).last() =~= name);
        } else {
            assert(split_slashes(text).last() =~= name);
        }
    } else {
        let init = name.drop_last();
        assert forall|i: int| 0 <= i < init.len() implies #[trigger] init[i] != '/' by {
            assert(init[i] == name[i]);
        }
        lemma_last_piece(head, init);
        assert(text.drop_last() =~= head + init);
        assert(text.last() == name[name.len() - 1]);
        assert(init.push(name.last()) =~= name);
    }
}

/// A text is what precedes its last piece, which is nothing or ends in a slash,
/// and that piece, which has no slash.
proof fn lemma_last_piece_splits(text: Seq<char>) -> (head: Seq<char>)
    ensures
        text == head + split_slashes(text).last(),
        head.len() == 0 || head.last() == '/',
        forall|i: int|
            0 <= i < split_slashes(text).last().len() ==> #[trigger] split_slashes(text).last()[i]
                != '/',
    decreases text.len(),
{
    lemma_split_nonempty(text);
    if text.len() == 0 {
        assert(text =~= text + split_slashes(text).last());
        text
    } else if text.last() == '/' {
        assert(text =~= text + split_slashes(text).last());
        text
    } else {
        let init = text.drop_last();
        let head = lemma_last_piece_splits(init);
        lemma_split_nonempty(init);
        let piece = split_slashes(init).last();
        assert(split_slashes(text).last() == piece.push(text.last()));
        let c = text.last();
        assert(text =~= init.push(c));
        assert((head + piece).push(c) =~= head + piece.push(c));
        assert forall|i: int| 0 <= i < piece.push(text.last()).len() implies #[trigger] piece.push(
            text.last(),
        )[i] != '/' by {
            if i < piece.len() {
                assert(piece.push(text.last())[i] == piece[i]);
            }
        }
        head
    }
}

/// The object of a manifest is named by its number in decimal and `.manifest`,
/// behind the last slash of its path, if there is one.
pub proof fn law_manifest_names(head: Seq<char>, number: Seq<char>)
    requires
        head.len() == 0 || head.last() == '/',
        forall|i: int| 0 <= i < number.len() ==> #[trigger] number[i] != '/',
    ensures
        manifest_id_of(head + number + ".manifest"@) == parsed_u64(number, 10),
{
    reveal_strlit(".manifest");
    let suffix = ".manifest"@;
    let name = number + suffix;
    assert(suffix =~= seq!['.', 'm', 'a', 'n', 'i', 'f', 'e', 's', 't']);
    assert forall|i: int| 0 <= i < name.len() implies #[trigger] name[i] != '/' by {
        if i < number.len() {
            assert(name[i] == number[i]);
        } else {
            assert(name[i] == suffix[i - number.len()]);
        }
    }
    lemma_last_piece(head, name);
    assert(head + number + suffix =~= head + name);
    law_stripped_suffix_completes(name, suffix, number);
}

/// No other object is a manifest.
pub proof fn law_only_manifests_have_manifest_names(location: Seq<char>) -> (parts: (
    Seq<char>,
    Seq<char>,
))
    ensures
        manifest_id_of(location) is Some ==> {
            &&& location == parts.0 + parts.1 + ".manifest"@
            &&& parts.0.len() == 0 || parts.0.last() == '/'
            &&& forall|i: int| 0 <= i < parts.1.len() ==> #[trigger] parts.1[i] != '/'
            &&& parsed_u64(parts.1, 10) == manifest_id_of(location)
        },
{
    let head = lemma_last_piece_splits(location);
    let name = split_slashes(location).last();
    if manifest_id_of(location) is Some {
        let number = stripped_suffix(name, ".manifest"@)->0;
        law_stripped_suffix_completes(name, ".manifest"@, number);
        assert(location =~= head + number + ".manifest"@);
        assert forall|i: int| 0 <= i < number.len() implies #[trigger] number[i] != '/' by {
            assert(name[i] == number[i]);
        }
        (head, number)
    } else {
        (head, name)
    }
}

} // verus!
