//! What holds of the keyspace as a whole.

use crate::encoding::{
    be32, be64, be64_value, in_range, lemma_be32_order, lemma_be32_round_trip, lemma_be64_order,
    lemma_be64_round_trip, lemma_byte_range, lemma_concat_parts, lemma_last_word_range,
    lemma_lex_lt_asymmetric, lemma_lex_lt_first_part, lemma_lex_lt_same_prefix, lemma_prefix_splits,
    lemma_starts_with_same_prefix, lemma_word_range, lex_lt, starts_with,
};
use crate::key_codec::{
    adopted_key_of, branch_field, full_key, is_scoped_key, key_header, key_kind, key_suffix,
    kind_byte, kind_domain, kind_of_byte, kind_scoped, parent_key_of, parsed, range_end,
    scoped_suffix_of, system_row, tombstone_bound_of, tombstone_header, tombstone_key_of,
    tombstone_range_end, tombstone_row, two_ids, KeyPrefix, ParsedKey, EXTENT_DOMAIN, META_DOMAIN,
    PREFIX_BRANCH_TOMBSTONE,
};
use vstd::prelude::*;

verus! {

/// A kind byte stands for the kind it was made from.
pub proof fn law_kind_byte_round_trip(kind: KeyPrefix)
    ensures
        kind_of_byte(kind_byte(kind)) == Some(kind),
{
}

/// Domain and kind byte: what keys of `kind` begin with under the root.
proof fn lemma_root_header(kind: KeyPrefix)
    ensures
        key_header(0, kind) == kind_domain(kind).push(kind_byte(kind)),
        key_header(0, kind).len() == kind_domain(kind).len() + 1,
{
    assert(key_header(0, kind) =~= kind_domain(kind).push(kind_byte(kind)));
}

/// The root layout has no branch bytes, and unscoped kinds have the same
/// layout under every branch.
pub proof fn law_global_layout(branch: u32, kind: KeyPrefix)
    ensures
        key_header(0, kind) == kind_domain(kind).push(kind_byte(kind)),
        !kind_scoped(kind) ==> key_header(branch, kind) == key_header(0, kind),
{
    lemma_root_header(kind);
}

/// A key begins with domain and kind byte exactly when it is of that kind.
pub proof fn law_kind_of_key(key: Seq<u8>, kind: KeyPrefix)
    ensures
        key_kind(key) == Some(kind) <==> starts_with(key, key_header(0, kind)),
{
    let header = key_header(0, kind);
    let domain = kind_domain(kind);
    lemma_root_header(kind);
    if starts_with(key, header) {
        let n = domain.len() as int;
        assert(key.subrange(0, n + 1)[n] == key[n]);
        assert(key.subrange(0, n) =~= key.subrange(0, n + 1).subrange(0, n));
        assert(header.subrange(0, n) =~= domain);
        assert(starts_with(key, domain));
        if domain == META_DOMAIN@ && starts_with(key, EXTENT_DOMAIN@) {
            assert(key.subrange(0, 4)[0] == META_DOMAIN@[0]);
            assert(key.subrange(0, 6)[0] == EXTENT_DOMAIN@[0]);
        }
    }
    if key_kind(key) == Some(kind) {
        let n = domain.len() as int;
        assert(starts_with(key, domain));
        assert(key[n] == kind_byte(kind));
        assert(key.subrange(0, n + 1) =~= domain.push(kind_byte(kind)));
    }
}

/// A full key splits into the header and the suffix it was made from, and its
/// kind can be told by any branch's codec.
pub proof fn law_full_key_parts(branch: u32, kind: KeyPrefix, suffix: Seq<u8>)
    ensures
        key_kind(full_key(branch, kind, suffix)) == Some(kind),
        starts_with(full_key(branch, kind, suffix), key_header(branch, kind)),
        kind_scoped(kind) ==> scoped_suffix_of(branch, full_key(branch, kind, suffix)) == Some(
            suffix,
        ),
{
    let key = full_key(branch, kind, suffix);
    lemma_root_header(kind);
    lemma_concat_parts(key_header(branch, kind), suffix);
    assert(key =~= key_header(0, kind) + (branch_field(branch, kind) + suffix));
    lemma_concat_parts(key_header(0, kind), branch_field(branch, kind) + suffix);
    law_kind_of_key(key, kind);
}

/// A scoped key is its header followed by its suffix.
pub proof fn law_scoped_key_rebuilds(branch: u32, key: Seq<u8>)
    requires
        is_scoped_key(branch, key),
    ensures
        key == full_key(branch, key_kind(key)->0, key_suffix(branch, key)),
{
    lemma_prefix_splits(key, key_header(branch, key_kind(key)->0));
}

/// Keys of one branch are equal only if kind and suffix are.
pub proof fn law_full_key_injective(
    branch: u32,
    kind1: KeyPrefix,
    suffix1: Seq<u8>,
    kind2: KeyPrefix,
    suffix2: Seq<u8>,
)
    requires
        full_key(branch, kind1, suffix1) == full_key(branch, kind2, suffix2),
    ensures
        kind1 == kind2,
        suffix1 == suffix2,
{
    law_full_key_parts(branch, kind1, suffix1);
    law_full_key_parts(branch, kind2, suffix2);
    lemma_concat_parts(key_header(branch, kind1), suffix1);
    lemma_concat_parts(key_header(branch, kind2), suffix2);
}

/// Whether a key of one scope begins with another scope's header: two
/// non-root branches never share keys, and a root key looks like a branch's
/// only where its suffix begins with that branch's id.
pub proof fn law_scopes_apart(branch: u32, other: u32, kind: KeyPrefix, suffix: Seq<u8>)
    requires
        kind_scoped(kind),
        branch != 0,
    ensures
        other != 0 ==> (is_scoped_key(branch, full_key(other, kind, suffix)) <==> other == branch),
        is_scoped_key(branch, full_key(0, kind, suffix)) <==> starts_with(suffix, be32(branch)),
{
    let base = key_header(0, kind);
    lemma_root_header(kind);
    law_full_key_parts(other, kind, suffix);
    law_full_key_parts(0, kind, suffix);
    assert(key_header(branch, kind) =~= base + be32(branch));
    lemma_starts_with_same_prefix(base, suffix, be32(branch));
    if other != 0 {
        assert(full_key(other, kind, suffix) =~= base + (be32(other) + suffix));
        lemma_starts_with_same_prefix(base, be32(other) + suffix, be32(branch));
        assert((be32(other) + suffix).subrange(0, 4) =~= be32(other));
        lemma_be32_round_trip(other);
        lemma_be32_round_trip(branch);
    }
}

/// Stripping the branch from a branch's key gives the parent's key for the
/// same entry, and adopting that gives the branch's key back.
pub proof fn law_strip_adopt(branch: u32, kind: KeyPrefix, suffix: Seq<u8>)
    requires
        branch != 0,
        kind_scoped(kind),
    ensures
        parent_key_of(branch, full_key(branch, kind, suffix)) == Some(full_key(0, kind, suffix)),
        adopted_key_of(branch, full_key(0, kind, suffix)) == Some(full_key(branch, kind, suffix)),
{
    law_full_key_parts(branch, kind, suffix);
    law_full_key_parts(0, kind, suffix);
}

/// Adopting inverts stripping on every key that can be stripped.
pub proof fn law_adopt_inverts_strip(branch: u32, key: Seq<u8>)
    requires
        parent_key_of(branch, key) is Some,
    ensures
        adopted_key_of(branch, parent_key_of(branch, key)->0) == Some(key),
{
    law_scoped_key_rebuilds(branch, key);
    law_strip_adopt(branch, key_kind(key)->0, key_suffix(branch, key));
}

/// Stripping inverts adopting on every key that can be adopted, and an adopted
/// key parses under the branch's codec to the parent's suffix.
pub proof fn law_strip_inverts_adopt(branch: u32, parent: Seq<u8>)
    requires
        adopted_key_of(branch, parent) is Some,
    ensures
        parent_key_of(branch, adopted_key_of(branch, parent)->0) == Some(parent),
        scoped_suffix_of(branch, adopted_key_of(branch, parent)->0) == scoped_suffix_of(0, parent),
{
    law_scoped_key_rebuilds(0, parent);
    law_strip_adopt(branch, key_kind(parent)->0, key_suffix(0, parent));
    law_full_key_parts(branch, key_kind(parent)->0, key_suffix(0, parent));
}

/// Root, unscoped and other branches' keys cannot be stripped.
pub proof fn law_strip_refuses(branch: u32, other: u32, kind: KeyPrefix, suffix: Seq<u8>)
    requires
        branch == 0 || !kind_scoped(kind) || (other != 0 && other != branch),
    ensures
        parent_key_of(branch, full_key(other, kind, suffix)) is None,
        tombstone_key_of(branch, full_key(other, kind, suffix)) is None,
{
    law_full_key_parts(other, kind, suffix);
    if branch != 0 && kind_scoped(kind) {
        law_scopes_apart(branch, other, kind, suffix);
    }
}

/// The tombstone row of a branch's key names the kind and suffix that the
/// parent's key has.
pub proof fn law_tombstone_names_parent_key(branch: u32, kind: KeyPrefix, suffix: Seq<u8>)
    requires
        branch != 0,
        kind_scoped(kind),
    ensures
        tombstone_key_of(branch, full_key(branch, kind, suffix)) == Some(
            tombstone_row(branch, kind, suffix),
        ),
        key_kind(tombstone_row(branch, kind, suffix)) == Some(KeyPrefix::BranchTombstone),
{
    law_full_key_parts(branch, kind, suffix);
    let row = tombstone_row(branch, kind, suffix);
    let base = key_header(0, KeyPrefix::BranchTombstone);
    lemma_root_header(KeyPrefix::BranchTombstone);
    assert(row =~= base + (be32(branch).push(kind_byte(kind)) + suffix));
    lemma_concat_parts(base, be32(branch).push(kind_byte(kind)) + suffix);
    law_kind_of_key(row, KeyPrefix::BranchTombstone);
}

/// Two tombstone rows are equal only if they shadow the same entry for the
/// same branch.
pub proof fn law_tombstone_row_injective(
    branch1: u32,
    kind1: KeyPrefix,
    suffix1: Seq<u8>,
    branch2: u32,
    kind2: KeyPrefix,
    suffix2: Seq<u8>,
)
    requires
        tombstone_row(branch1, kind1, suffix1) == tombstone_row(branch2, kind2, suffix2),
    ensures
        branch1 == branch2,
        kind1 == kind2,
        suffix1 == suffix2,
{
    let row = tombstone_row(branch1, kind1, suffix1);
    assert(row.subrange(5, 9) =~= be32(branch1));
    assert(row.subrange(5, 9) =~= be32(branch2));
    lemma_be32_round_trip(branch1);
    lemma_be32_round_trip(branch2);
    assert(row[9] == kind_byte(kind1) && row[9] == kind_byte(kind2));
    lemma_concat_parts(tombstone_header(branch1).push(kind_byte(kind1)), suffix1);
    lemma_concat_parts(tombstone_header(branch2).push(kind_byte(kind2)), suffix2);
}

/// The range of a kind under a branch holds exactly the keys that begin with
/// its header, among the keys that are long enough to hold a branch id.
pub proof fn law_prefix_range_exact(branch: u32, kind: KeyPrefix, key: Seq<u8>)
    requires
        key.len() >= key_header(branch, kind).len(),
    ensures
        in_range(key, key_header(branch, kind), range_end(branch, kind)) <==> starts_with(
            key,
            key_header(branch, kind),
        ),
{
    let domain = kind_domain(kind);
    let base = domain.push(kind_byte(kind));
    lemma_root_header(kind);
    if kind_scoped(kind) && branch != 0 {
        if branch < u32::MAX {
            lemma_word_range(base, branch, key);
        } else {
            lemma_last_word_range(domain, kind_byte(kind), key);
        }
    } else {
        assert(key_header(branch, kind) =~= base);
        lemma_byte_range(domain, kind_byte(kind), key);
    }
}

/// Every key of a branch lies in the range of its kind.
pub proof fn law_prefix_range_covers(branch: u32, kind: KeyPrefix, suffix: Seq<u8>)
    ensures
        in_range(
            full_key(branch, kind, suffix),
            key_header(branch, kind),
            range_end(branch, kind),
        ),
{
    law_full_key_parts(branch, kind, suffix);
    law_prefix_range_exact(branch, kind, full_key(branch, kind, suffix));
}

/// No key of another kind lies in a kind's range.
pub proof fn law_prefix_range_one_kind(
    branch: u32,
    kind: KeyPrefix,
    other_branch: u32,
    other_kind: KeyPrefix,
    suffix: Seq<u8>,
)
    requires
        kind != other_kind,
        full_key(other_branch, other_kind, suffix).len() >= key_header(branch, kind).len(),
    ensures
        !in_range(
            full_key(other_branch, other_kind, suffix),
            key_header(branch, kind),
            range_end(branch, kind),
        ),
{
    let key = full_key(other_branch, other_kind, suffix);
    law_full_key_parts(other_branch, other_kind, suffix);
    law_prefix_range_exact(branch, kind, key);
    if starts_with(key, key_header(branch, kind)) {
        lemma_prefix_splits(key, key_header(branch, kind));
        law_full_key_parts(
            branch,
            kind,
            key.subrange(key_header(branch, kind).len() as int, key.len() as int),
        );
    }
}

/// The range of a scoped kind under a non-root branch holds no key of a
/// sibling branch, and no root key whose leading id is below 2^32.
pub proof fn law_prefix_range_one_branch(
    branch: u32,
    kind: KeyPrefix,
    other: u32,
    suffix: Seq<u8>,
)
    requires
        branch != 0,
        kind_scoped(kind),
        other != branch,
        other == 0 ==> starts_with(suffix, be32(0)),
    ensures
        !in_range(
            full_key(other, kind, suffix),
            key_header(branch, kind),
            range_end(branch, kind),
        ),
{
    law_scopes_apart(branch, other, kind, suffix);
    law_full_key_parts(other, kind, suffix);
    lemma_be32_round_trip(branch);
    lemma_be32_round_trip(0);
    if starts_with(suffix, be32(branch)) && starts_with(suffix, be32(0)) {
        assert(be32(branch) == be32(0));
    }
    assert(key_header(other, kind).len() + suffix.len() >= key_header(branch, kind).len()) by {
        lemma_root_header(kind);
    }
    law_prefix_range_exact(branch, kind, full_key(other, kind, suffix));
}

/// The tombstone range of a branch holds exactly the rows that begin with that
/// branch's tombstone header.
pub proof fn law_tombstone_range_exact(branch: u32, key: Seq<u8>)
    requires
        key.len() >= 9,
    ensures
        in_range(key, tombstone_header(branch), tombstone_range_end(branch)) <==> starts_with(
            key,
            tombstone_header(branch),
        ),
{
    if branch < u32::MAX {
        lemma_word_range(META_DOMAIN@.push(PREFIX_BRANCH_TOMBSTONE), branch, key);
    } else {
        lemma_last_word_range(META_DOMAIN@, PREFIX_BRANCH_TOMBSTONE, key);
    }
}

/// A tombstone row lies in a branch's tombstone range exactly when it is that
/// branch's.
pub proof fn law_tombstone_range_one_branch(
    branch: u32,
    other: u32,
    kind: KeyPrefix,
    suffix: Seq<u8>,
)
    ensures
        in_range(
            tombstone_row(other, kind, suffix),
            tombstone_header(branch),
            tombstone_range_end(branch),
        ) <==> other == branch,
{
    let row = tombstone_row(other, kind, suffix);
    law_tombstone_range_exact(branch, row);
    assert(row.subrange(0, 9) =~= tombstone_header(other));
    assert(tombstone_header(other).subrange(5, 9) =~= be32(other));
    assert(tombstone_header(branch).subrange(5, 9) =~= be32(branch));
    lemma_be32_round_trip(other);
    lemma_be32_round_trip(branch);
}

/// The prefix of a kind's tombstones under a branch covers exactly the rows
/// that shadow a key of that kind whose suffix begins with the given bytes.
pub proof fn law_tombstone_prefix_exact(
    branch: u32,
    kind: KeyPrefix,
    start: Seq<u8>,
    other_kind: KeyPrefix,
    suffix: Seq<u8>,
)
    ensures
        starts_with(
            tombstone_row(branch, other_kind, suffix),
            tombstone_row(branch, kind, start),
        ) <==> other_kind == kind && starts_with(suffix, start),
{
    let h = tombstone_header(branch).push(kind_byte(kind));
    let row = tombstone_row(branch, other_kind, suffix);
    let prefix = tombstone_row(branch, kind, start);
    if kind == other_kind {
        lemma_starts_with_same_prefix(h, suffix, start);
    } else {
        assert(row[9] == kind_byte(other_kind));
        assert(prefix[9] == kind_byte(kind));
        if starts_with(row, prefix) {
            assert(row.subrange(0, prefix.len() as int)[9] == prefix[9]);
        }
    }
}

/// A parent-scan bound moves to the tombstone rows with the order of suffixes
/// kept: a bound at a parent key maps to the row that shadows it, and the end
/// of a kind to the end of its rows.
pub proof fn law_tombstone_bound_re_roots(branch: u32, kind: KeyPrefix, suffix: Seq<u8>)
    requires
        branch != 0,
    ensures
        tombstone_bound_of(branch, full_key(0, kind, suffix)) == Some(
            tombstone_row(branch, kind, suffix),
        ),
        tombstone_bound_of(branch, range_end(0, kind)) == Some(
            tombstone_header(branch).push((kind_byte(kind) + 1) as u8),
        ),
{
    let key = full_key(0, kind, suffix);
    let end = range_end(0, kind);
    lemma_root_header(kind);
    let n = kind_domain(kind).len() as int;
    assert(key.subrange(0, n) =~= kind_domain(kind));
    assert(end.subrange(0, n) =~= kind_domain(kind));
    if kind == KeyPrefix::Extent {
        assert(key.subrange(0, 6)[0] == EXTENT_DOMAIN@[0]);
        assert(end.subrange(0, 6)[0] == EXTENT_DOMAIN@[0]);
        assert(key[0] != META_DOMAIN@[0] && end[0] != META_DOMAIN@[0]);
        assert(!starts_with(key, META_DOMAIN@)) by {
            if starts_with(key, META_DOMAIN@) {
                assert(key.subrange(0, 4)[0] == META_DOMAIN@[0]);
            }
        }
        assert(!starts_with(end, META_DOMAIN@)) by {
            if starts_with(end, META_DOMAIN@) {
                assert(end.subrange(0, 4)[0] == META_DOMAIN@[0]);
            }
        }
    }
    assert(key.subrange(n, key.len() as int) =~= seq![kind_byte(kind)] + suffix);
    assert(end.subrange(n, end.len() as int) =~= seq![(kind_byte(kind) + 1) as u8]);
    assert(tombstone_header(branch) + (seq![kind_byte(kind)] + suffix) =~= tombstone_row(
        branch,
        kind,
        suffix,
    ));
    assert(tombstone_header(branch) + seq![(kind_byte(kind) + 1) as u8] =~= tombstone_header(
        branch,
    ).push((kind_byte(kind) + 1) as u8));
}

/// Keys of one kind sort by branch and then by suffix.
pub proof fn law_branched_keys_sort(
    kind: KeyPrefix,
    branch1: u32,
    suffix1: Seq<u8>,
    branch2: u32,
    suffix2: Seq<u8>,
)
    requires
        kind_scoped(kind),
        branch1 != 0,
        branch2 != 0,
    ensures
        lex_lt(full_key(branch1, kind, suffix1), full_key(branch2, kind, suffix2)) <==> branch1
            < branch2 || (branch1 == branch2 && lex_lt(suffix1, suffix2)),
{
    let base = key_header(0, kind);
    lemma_root_header(kind);
    let a = be32(branch1);
    let b = be32(branch2);
    assert(full_key(branch1, kind, suffix1) =~= base + (a + suffix1));
    assert(full_key(branch2, kind, suffix2) =~= base + (b + suffix2));
    lemma_lex_lt_same_prefix(base, a + suffix1, b + suffix2);
    lemma_be32_order(branch1, branch2);
    lemma_be32_order(branch2, branch1);
    if branch1 == branch2 {
        lemma_lex_lt_same_prefix(a, suffix1, suffix2);
    } else if branch1 < branch2 {
        lemma_lex_lt_first_part(a, b, suffix1, suffix2);
    } else {
        lemma_lex_lt_first_part(b, a, suffix2, suffix1);
        lemma_lex_lt_asymmetric(a + suffix1, b + suffix2);
    }
}

/// Keys of one kind under one branch sort by suffix.
pub proof fn law_keys_sort_by_suffix(
    branch: u32,
    kind: KeyPrefix,
    suffix1: Seq<u8>,
    suffix2: Seq<u8>,
)
    ensures
        lex_lt(full_key(branch, kind, suffix1), full_key(branch, kind, suffix2)) <==> lex_lt(
            suffix1,
            suffix2,
        ),
{
    lemma_lex_lt_same_prefix(key_header(branch, kind), suffix1, suffix2);
}

/// Suffixes that begin with a number sort by that number first.
pub proof fn law_suffixes_sort_by_number(a: u64, rest1: Seq<u8>, b: u64, rest2: Seq<u8>)
    ensures
        lex_lt(be64(a) + rest1, be64(b) + rest2) <==> a < b || (a == b && lex_lt(rest1, rest2)),
{
    lemma_be64_order(a, b);
    lemma_be64_order(b, a);
    if a == b {
        lemma_lex_lt_same_prefix(be64(a), rest1, rest2);
    } else if a < b {
        lemma_lex_lt_first_part(be64(a), be64(b), rest1, rest2);
    } else {
        lemma_lex_lt_first_part(be64(b), be64(a), rest2, rest1);
        lemma_lex_lt_asymmetric(be64(a) + rest1, be64(b) + rest2);
    }
}

/// Flush-time rows sort by manifest id.
pub proof fn law_flush_time_keys_sort(branch: u32, a: u64, b: u64)
    ensures
        lex_lt(
            full_key(branch, KeyPrefix::FlushTime, be64(a)),
            full_key(branch, KeyPrefix::FlushTime, be64(b)),
        ) <==> a < b,
{
    law_keys_sort_by_suffix(branch, KeyPrefix::FlushTime, be64(a), be64(b));
    lemma_be64_order(a, b);
}

/// Keys of two numbers sort by the first and then by the second: extents by
/// inode and index, tombstones by time and inode, scan rows by directory and
/// cookie, and segment counters by epoch and counter, which is the order in
/// which segments were made.
pub proof fn law_number_pair_keys_sort(
    branch: u32,
    kind: KeyPrefix,
    a1: u64,
    a2: u64,
    b1: u64,
    b2: u64,
)
    ensures
        lex_lt(
            full_key(branch, kind, be64(a1) + be64(a2)),
            full_key(branch, kind, be64(b1) + be64(b2)),
        ) <==> a1 < b1 || (a1 == b1 && a2 < b2),
{
    law_keys_sort_by_suffix(branch, kind, be64(a1) + be64(a2), be64(b1) + be64(b2));
    law_suffixes_sort_by_number(a1, be64(a2), b1, be64(b2));
    lemma_be64_order(a2, b2);
}

/// A scan that resumes after a cookie continues with exactly the rows of later
/// cookies.
pub proof fn law_resume_key_continues(branch: u32, dir_id: u64, cookie: u64, other: u64)
    requires
        cookie < u64::MAX,
    ensures
        !lex_lt(
            full_key(branch, KeyPrefix::DirScan, be64(dir_id) + be64(other)),
            full_key(branch, KeyPrefix::DirScan, be64(dir_id) + be64((cookie + 1) as u64)),
        ) <==> other > cookie,
{
    law_number_pair_keys_sort(
        branch,
        KeyPrefix::DirScan,
        dir_id,
        other,
        dir_id,
        (cookie + 1) as u64,
    );
}

/// A key gives two numbers of a kind only if it is of that kind.
pub proof fn law_two_ids_only_of_kind(key: Seq<u8>, kind: KeyPrefix, header_len: int)
    requires
        two_ids(key, kind, header_len) is Some,
    ensures
        key_kind(key) == Some(kind),
{
    lemma_root_header(kind);
    law_kind_of_key(key, kind);
}

/// Entries of one directory sort by name, and all of them lie under the
/// directory's prefix.
pub proof fn law_dir_entries_sort_by_name(
    branch: u32,
    dir_id: u64,
    name1: Seq<u8>,
    name2: Seq<u8>,
)
    ensures
        lex_lt(
            full_key(branch, KeyPrefix::DirEntry, be64(dir_id) + name1),
            full_key(branch, KeyPrefix::DirEntry, be64(dir_id) + name2),
        ) <==> lex_lt(name1, name2),
        starts_with(
            full_key(branch, KeyPrefix::DirEntry, be64(dir_id) + name1),
            full_key(branch, KeyPrefix::DirEntry, be64(dir_id)),
        ),
{
    law_keys_sort_by_suffix(
        branch,
        KeyPrefix::DirEntry,
        be64(dir_id) + name1,
        be64(dir_id) + name2,
    );
    lemma_lex_lt_same_prefix(be64(dir_id), name1, name2);
    let prefix = full_key(branch, KeyPrefix::DirEntry, be64(dir_id));
    assert(full_key(branch, KeyPrefix::DirEntry, be64(dir_id) + name1) =~= prefix + name1);
    lemma_concat_parts(prefix, name1);
}

/// A key of two numbers gives them back.
pub proof fn law_two_ids_round_trip(branch: u32, kind: KeyPrefix, a: u64, b: u64)
    ensures
        two_ids(
            full_key(branch, kind, be64(a) + be64(b)),
            kind,
            key_header(branch, kind).len() as int,
        ) == Some((a, b)),
{
    let header = key_header(branch, kind);
    let key = full_key(branch, kind, be64(a) + be64(b));
    let n = header.len() as int;
    lemma_be64_round_trip(a);
    lemma_be64_round_trip(b);
    assert(key.subrange(n, n + 8) =~= be64(a));
    assert(key.subrange(n + 8, n + 16) =~= be64(b));
    law_full_key_parts(branch, kind, be64(a) + be64(b));
    law_kind_of_key(key, kind);
    lemma_root_header(kind);
}

/// The volume-wide parse of segment counters reads every scope's keys.
pub proof fn law_any_segcount_reads_every_scope(branch: u32, epoch: u64, counter: u64)
    ensures
        match two_ids(
            full_key(branch, KeyPrefix::SegCount, be64(epoch) + be64(counter)),
            KeyPrefix::SegCount,
            5,
        ) {
            Some(ids) => ids == (epoch, counter),
            None => two_ids(
                full_key(branch, KeyPrefix::SegCount, be64(epoch) + be64(counter)),
                KeyPrefix::SegCount,
                9,
            ) == Some((epoch, counter)),
        },
{
    law_two_ids_round_trip(branch, KeyPrefix::SegCount, epoch, counter);
}

/// A flush-time key gives its manifest id back.
pub proof fn law_flush_time_key_round_trip(branch: u32, manifest_id: u64)
    ensures
        full_key(branch, KeyPrefix::FlushTime, be64(manifest_id)).len() == 13,
        starts_with(
            full_key(branch, KeyPrefix::FlushTime, be64(manifest_id)),
            key_header(branch, KeyPrefix::FlushTime),
        ),
        be64_value(full_key(branch, KeyPrefix::FlushTime, be64(manifest_id)).subrange(5, 13))
            == manifest_id,
{
    lemma_be64_round_trip(manifest_id);
    let key = full_key(branch, KeyPrefix::FlushTime, be64(manifest_id));
    law_full_key_parts(branch, KeyPrefix::FlushTime, be64(manifest_id));
    assert(key.subrange(5, 13) =~= be64(manifest_id));
}

/// Scan rows, tombstones and orphans parse under the codec that built them.
pub proof fn law_parse_key_round_trip(branch: u32, a: u64, b: u64)
    ensures
        parsed(branch, full_key(branch, KeyPrefix::DirScan, be64(a) + be64(b)))
            == (ParsedKey::DirScan { cookie: b }),
        parsed(branch, full_key(branch, KeyPrefix::Tombstone, be64(a) + be64(b)))
            == (ParsedKey::Tombstone { inode_id: b }),
        parsed(branch, full_key(branch, KeyPrefix::Orphan, be64(a))) == (ParsedKey::Orphan {
            inode_id: a,
        }),
{
    lemma_be64_round_trip(a);
    lemma_be64_round_trip(b);
    let scan = full_key(branch, KeyPrefix::DirScan, be64(a) + be64(b));
    law_full_key_parts(branch, KeyPrefix::DirScan, be64(a) + be64(b));
    assert(scan.subrange(13, 21) =~= be64(b));
    let tomb = full_key(branch, KeyPrefix::Tombstone, be64(a) + be64(b));
    law_full_key_parts(branch, KeyPrefix::Tombstone, be64(a) + be64(b));
    let n = key_header(branch, KeyPrefix::Tombstone).len() as int;
    assert(tomb.subrange(n + 8, n + 16) =~= be64(b));
    let orphan = full_key(branch, KeyPrefix::Orphan, be64(a));
    law_full_key_parts(branch, KeyPrefix::Orphan, be64(a));
    let m = key_header(branch, KeyPrefix::Orphan).len() as int;
    assert(orphan.subrange(m, m + 8) =~= be64(a));
}

/// The volume-level system rows differ from each other.
pub proof fn law_system_rows_distinct(a: u8, b: u8)
    requires
        a != b,
    ensures
        system_row(a) != system_row(b),
{
    assert(system_row(a).last() == a);
    assert(system_row(b).last() == b);
}

} // verus!
