//! The stored bytes of keys and values, spelled out.

use crate::encoding::{
    be32, be32_value, be64, be64_value, in_range, le32, le32_value, le64, le64_value,
    lemma_be32_round_trip, lemma_be64_round_trip, lemma_concat_parts, lemma_le32_round_trip,
    lemma_le64_round_trip, lemma_lex_lt_asymmetric, lemma_lex_lt_same_prefix, lemma_prefix_splits,
    less_at, lex_le, lex_lt, starts_with,
};
use crate::fixed_key::{MAX_EXTENT_KEY_SIZE, MAX_INODE_KEY_SIZE};
use crate::key_codec::{
    adopted_key_of, bound_from_kind, full_key, is_scoped_key, key_header, key_kind, key_suffix,
    kind_name, kind_of_byte, kind_scoped, parent_key_of, parsed, range_end, scoped_suffix_of, system_row,
    tombstone_bound_of, tombstone_header, tombstone_key_of, tombstone_range_end, tombstone_row,
    two_ids, KeyPrefix, ParsedKey, BRANCH_ID_SIZE, EXTENT_DOMAIN, EXTENT_KEY_SIZE, INODE_KEY_SIZE,
    META_DOMAIN, U64_SIZE,
};
use crate::key_laws::{law_full_key_parts, law_global_layout, law_scoped_key_rebuilds};
use crate::replication::StampFields;
use crate::value_codec::{
    dir_entry_of, flush_time_bytes, flush_time_of, ha_stamp_bytes, ha_stamp_of, segcount_of, u64_of,
};
use vstd::prelude::*;
use vstd::std_specs::convert::{FromSpec, TryFromSpec};

verus! {

/// Big-endian bytes weigh 256 times less from each to the next, and a number is
/// the sum of its bytes by weight.
pub proof fn law_big_endian_bytes_weigh(x: u32, y: u64)
    ensures
        be32(x).len() == 4,
        x == be32(x)[0] * 0x100_0000 + be32(x)[1] * 0x1_0000 + be32(x)[2] * 0x100 + be32(x)[3],
        be64(y).len() == 8,
        y == be64(y)[0] * 0x100_0000_0000_0000 + be64(y)[1] * 0x1_0000_0000_0000 + be64(y)[2]
            * 0x100_0000_0000 + be64(y)[3] * 0x1_0000_0000 + be64(y)[4] * 0x100_0000 + be64(y)[5]
            * 0x1_0000 + be64(y)[6] * 0x100 + be64(y)[7],
{
    lemma_be32_round_trip(x);
    lemma_be64_round_trip(y);
    law_big_endian_values_weigh(be32(x), be64(y));
}

/// What bytes stand for, most significant first, is their sum by weight.
pub proof fn law_big_endian_values_weigh(s: Seq<u8>, t: Seq<u8>)
    requires
        s.len() == 4,
        t.len() == 8,
    ensures
        be32_value(s) == s[0] * 0x100_0000 + s[1] * 0x1_0000 + s[2] * 0x100 + s[3],
        be64_value(t) == t[0] * 0x100_0000_0000_0000 + t[1] * 0x1_0000_0000_0000 + t[2]
            * 0x100_0000_0000 + t[3] * 0x1_0000_0000 + t[4] * 0x100_0000 + t[5] * 0x1_0000 + t[6]
            * 0x100 + t[7],
{
}

/// Little-endian bytes weigh 256 times more from each to the next, and a number
/// is the sum of its bytes by weight.
pub proof fn law_little_endian_bytes_weigh(x: u32, y: u64)
    ensures
        le32(x).len() == 4,
        x == le32(x)[3] * 0x100_0000 + le32(x)[2] * 0x1_0000 + le32(x)[1] * 0x100 + le32(x)[0],
        le64(y).len() == 8,
        y == le64(y)[7] * 0x100_0000_0000_0000 + le64(y)[6] * 0x1_0000_0000_0000 + le64(y)[5]
            * 0x100_0000_0000 + le64(y)[4] * 0x1_0000_0000 + le64(y)[3] * 0x100_0000 + le64(y)[2]
            * 0x1_0000 + le64(y)[1] * 0x100 + le64(y)[0],
{
    lemma_le32_round_trip(x);
    lemma_le64_round_trip(y);
    law_little_endian_values_weigh(le32(x), le64(y));
}

/// What bytes stand for, least significant first, is their sum by weight.
pub proof fn law_little_endian_values_weigh(s: Seq<u8>, t: Seq<u8>)
    requires
        s.len() == 4,
        t.len() == 8,
    ensures
        le32_value(s) == s[3] * 0x100_0000 + s[2] * 0x1_0000 + s[1] * 0x100 + s[0],
        le64_value(t) == t[7] * 0x100_0000_0000_0000 + t[6] * 0x1_0000_0000_0000 + t[5]
            * 0x100_0000_0000 + t[4] * 0x1_0000_0000 + t[3] * 0x100_0000 + t[2] * 0x1_0000 + t[1]
            * 0x100 + t[0],
{
}

/// Two numbers that agree, each made of a leading part and a last byte, agree in
/// both.
proof fn lemma_last_digit(a: int, x: u8, b: int, y: u8)
    requires
        a * 0x100 + x == b * 0x100 + y,
    ensures
        a == b,
        x == y,
{
}

/// Eight bytes that stand for the same number are the same.
proof fn lemma_weights64(s: Seq<u8>, t: Seq<u8>)
    requires
        s.len() == 8,
        t.len() == 8,
        s[0] * 0x100_0000_0000_0000 + s[1] * 0x1_0000_0000_0000 + s[2] * 0x100_0000_0000 + s[3]
            * 0x1_0000_0000 + s[4] * 0x100_0000 + s[5] * 0x1_0000 + s[6] * 0x100 + s[7] == t[0]
            * 0x100_0000_0000_0000 + t[1] * 0x1_0000_0000_0000 + t[2] * 0x100_0000_0000 + t[3]
            * 0x1_0000_0000 + t[4] * 0x100_0000 + t[5] * 0x1_0000 + t[6] * 0x100 + t[7],
    ensures
        s == t,
{
    let s2 = s[0] * 0x100 + s[1];
    let s3 = s2 * 0x100 + s[2];
    let s4 = s3 * 0x100 + s[3];
    let s5 = s4 * 0x100 + s[4];
    let s6 = s5 * 0x100 + s[5];
    let s7 = s6 * 0x100 + s[6];
    let t2 = t[0] * 0x100 + t[1];
    let t3 = t2 * 0x100 + t[2];
    let t4 = t3 * 0x100 + t[3];
    let t5 = t4 * 0x100 + t[4];
    let t6 = t5 * 0x100 + t[5];
    let t7 = t6 * 0x100 + t[6];
    lemma_last_digit(s7, s[7], t7, t[7]);
    lemma_last_digit(s6, s[6], t6, t[6]);
    lemma_last_digit(s5, s[5], t5, t[5]);
    lemma_last_digit(s4, s[4], t4, t[4]);
    lemma_last_digit(s3, s[3], t3, t[3]);
    lemma_last_digit(s2, s[2], t2, t[2]);
    lemma_last_digit(s[0] as int, s[1], t[0] as int, t[1]);
    assert(s =~= t);
}

/// Eight bytes are the big-endian bytes of the number they stand for, and of no
/// other.
pub proof fn law_big_endian_reads_what_is_written(s: Seq<u8>, x: u64)
    requires
        s.len() == 8,
    ensures
        be64_value(s) == x <==> s == be64(x),
{
    law_big_endian_bytes_weigh(0, x);
    lemma_be64_round_trip(x);
    if be64_value(s) == x {
        lemma_weights64(s, be64(x));
    }
}

/// Eight bytes are the little-endian bytes of the number they stand for, and of
/// no other.
pub proof fn law_little_endian_reads_what_is_written(s: Seq<u8>, x: u64)
    requires
        s.len() == 8,
    ensures
        le64_value(s) == x <==> s == le64(x),
{
    law_little_endian_bytes_weigh(0, x);
    lemma_le64_round_trip(x);
    if le64_value(s) == x {
        lemma_weights64(s.reverse(), le64(x).reverse());
        assert(s =~= s.reverse().reverse());
        assert(le64(x) =~= le64(x).reverse().reverse());
    }
}

/// Four bytes are the little-endian bytes of the number they stand for, and of
/// no other.
pub proof fn law_short_little_endian_reads_what_is_written(s: Seq<u8>, x: u32)
    requires
        s.len() == 4,
    ensures
        le32_value(s) == x <==> s == le32(x),
{
    law_little_endian_bytes_weigh(x, 0);
    lemma_le32_round_trip(x);
    if le32_value(s) == x {
        lemma_weights32(s, le32(x));
    }
}

/// Four bytes that stand for the same number are the same.
proof fn lemma_weights32(s: Seq<u8>, t: Seq<u8>)
    requires
        s.len() == 4,
        t.len() == 4,
        s[3] * 0x100_0000 + s[2] * 0x1_0000 + s[1] * 0x100 + s[0] == t[3] * 0x100_0000 + t[2]
            * 0x1_0000 + t[1] * 0x100 + t[0],
    ensures
        s == t,
{
    let zero = 0u8;
    let x = seq![zero, zero, zero, zero, s[3], s[2], s[1], s[0]];
    let y = seq![zero, zero, zero, zero, t[3], t[2], t[1], t[0]];
    lemma_weights64(x, y);
    assert(x[4] == y[4] && x[5] == y[5] && x[6] == y[6] && x[7] == y[7]);
    assert(s =~= t);
}

/// Key order is decided by the first byte that differs, and what ends first
/// comes first.
pub proof fn law_key_order_by_first_difference(a: u8, s: Seq<u8>, b: u8, t: Seq<u8>)
    ensures
        lex_lt(seq![a] + s, seq![b] + t) <==> a < b || (a == b && lex_lt(s, t)),
        lex_lt(Seq::empty(), seq![b] + t),
        !lex_lt(seq![a] + s, Seq::empty()),
        !lex_lt(Seq::<u8>::empty(), Seq::<u8>::empty()),
        lex_le(s, t) <==> s == t || lex_lt(s, t),
{
    let x = seq![a] + s;
    let y = seq![b] + t;
    if a == b {
        assert(x =~= seq![b] + s);
        lemma_lex_lt_same_prefix(seq![b], s, t);
    } else if a < b {
        assert(x.subrange(0, 0) =~= y.subrange(0, 0));
        assert(less_at(x, y, 0));
    } else {
        assert(x.subrange(0, 0) =~= y.subrange(0, 0));
        assert(less_at(y, x, 0));
        lemma_lex_lt_asymmetric(y, x);
    }
    assert(Seq::<u8>::empty().subrange(0, 0) =~= y.subrange(0, 0));
    assert(less_at(Seq::<u8>::empty(), y, 0));
}

/// A string begins with another exactly if something follows it to make it up.
pub proof fn law_prefix_and_rest(data: Seq<u8>, prefix: Seq<u8>)
    ensures
        starts_with(data, prefix) <==> exists|rest: Seq<u8>| data == #[trigger] (prefix + rest),
{
    if starts_with(data, prefix) {
        lemma_prefix_splits(data, prefix);
    }
    if exists|rest: Seq<u8>| data == #[trigger] (prefix + rest) {
        let rest = choose|rest: Seq<u8>| data == #[trigger] (prefix + rest);
        lemma_concat_parts(prefix, rest);
    }
}

/// A half-open range holds its start and not its end.
pub proof fn law_range_is_half_open(key: Seq<u8>, start: Seq<u8>, end: Seq<u8>)
    ensures
        in_range(key, start, end) <==> !lex_lt(key, start) && lex_lt(key, end),
{
    crate::encoding::lemma_lex_lt_total(key, start);
    lemma_lex_lt_asymmetric(key, start);
    lemma_lex_lt_asymmetric(start, start);
}

/// The kinds whose keys differ from branch to branch.
pub proof fn law_scoped_kinds(kind: KeyPrefix)
    ensures
        kind_scoped(kind) <==> match kind {
            KeyPrefix::Inode => true,
            KeyPrefix::DirEntry => true,
            KeyPrefix::DirCookie => true,
            KeyPrefix::Tombstone => true,
            KeyPrefix::Orphan => true,
            KeyPrefix::SegCount => true,
            KeyPrefix::Extent => true,
            KeyPrefix::DirScan => false,
            KeyPrefix::Stats => false,
            KeyPrefix::System => false,
            KeyPrefix::ForkLineage => false,
            KeyPrefix::ForkRegistry => false,
            KeyPrefix::FlushTime => false,
            KeyPrefix::BranchTombstone => false,
            KeyPrefix::Branch => false,
        },
{
}

/// The stored bytes of every key: `meta` and the kind's number, or `extent` and
/// 0xfe; four bytes of branch id where the kind differs by branch and the branch
/// is not the root; and the suffix.
pub proof fn law_key_bytes(branch: u32, kind: KeyPrefix, suffix: Seq<u8>)
    ensures
        full_key(branch, kind, suffix) == key_header(branch, kind) + suffix,
        kind == KeyPrefix::Extent ==> key_header(0, kind) == seq![
            0x65u8,
            0x78u8,
            0x74u8,
            0x65u8,
            0x6eu8,
            0x74u8,
            0xfeu8,
        ],
        kind != KeyPrefix::Extent ==> key_header(0, kind) == seq![
            0x6du8,
            0x65u8,
            0x74u8,
            0x61u8,
            match kind {
                KeyPrefix::Inode => 1u8,
                KeyPrefix::DirEntry => 2u8,
                KeyPrefix::DirScan => 3u8,
                KeyPrefix::DirCookie => 4u8,
                KeyPrefix::Stats => 5u8,
                KeyPrefix::System => 6u8,
                KeyPrefix::Tombstone => 7u8,
                KeyPrefix::Orphan => 8u8,
                KeyPrefix::SegCount => 9u8,
                KeyPrefix::ForkLineage => 10u8,
                KeyPrefix::ForkRegistry => 11u8,
                KeyPrefix::FlushTime => 12u8,
                KeyPrefix::BranchTombstone => 13u8,
                KeyPrefix::Branch => 14u8,
                KeyPrefix::Extent => 0u8,
            },
        ],
        kind_scoped(kind) && branch != 0 ==> key_header(branch, kind) == key_header(0, kind) + be32(
            branch,
        ),
        !(kind_scoped(kind) && branch != 0) ==> key_header(branch, kind) == key_header(0, kind),
{
    if kind == KeyPrefix::Extent {
        assert(key_header(0, kind) =~= seq![
            0x65u8,
            0x78u8,
            0x74u8,
            0x65u8,
            0x6eu8,
            0x74u8,
            0xfeu8,
        ]);
    } else {
        assert(key_header(0, kind).len() == 5);
        assert(key_header(0, kind)[0] == 0x6d && key_header(0, kind)[1] == 0x65 && key_header(
            0,
            kind,
        )[2] == 0x74 && key_header(0, kind)[3] == 0x61);
    }
    assert(key_header(branch, kind) =~= key_header(0, kind) + if kind_scoped(kind) && branch != 0 {
        be32(branch)
    } else {
        Seq::empty()
    });
}

/// The stored bytes of a tombstone row: `meta`, 0x0d, the branch id, the byte
/// that numbers the shadowed kind, and the shadowed suffix.
pub proof fn law_tombstone_row_bytes(branch: u32, kind: KeyPrefix, suffix: Seq<u8>)
    ensures
        tombstone_header(branch) == seq![0x6du8, 0x65u8, 0x74u8, 0x61u8, 0x0du8] + be32(branch),
        tombstone_row(branch, kind, suffix) == tombstone_header(branch) + seq![
            key_header(0, kind).last(),
        ] + suffix,
{
    law_key_bytes(0, kind, suffix);
    assert(tombstone_header(branch) =~= seq![0x6du8, 0x65u8, 0x74u8, 0x61u8, 0x0du8] + be32(branch));
    assert(key_header(0, kind).last() == crate::key_codec::kind_byte(kind)) by {
        law_global_layout(0, kind);
    }
    assert(tombstone_row(branch, kind, suffix) =~= tombstone_header(branch) + seq![
        key_header(0, kind).last(),
    ] + suffix);
}

/// The stored bytes of a volume-level row: `meta`, 0x06 and the row's number.
pub proof fn law_system_row_bytes(id: u8)
    ensures
        system_row(id) == seq![0x6du8, 0x65u8, 0x74u8, 0x61u8, 0x06u8, id],
{
    assert(system_row(id) =~= seq![0x6du8, 0x65u8, 0x74u8, 0x61u8, 0x06u8, id]);
}

/// Every byte numbers at most one kind, and only a number that a kind has
/// stands for one.
pub proof fn law_kind_numbers(byte: u8, kind: KeyPrefix)
    ensures
        kind_of_byte(byte) == Some(kind) <==> byte == key_header(0, kind).last(),
{
    law_global_layout(0, kind);
    assert(key_header(0, kind).last() == crate::key_codec::kind_byte(kind));
}

/// A key has a suffix in a branch's layout exactly if it is the full key of a
/// scoped kind under that branch, and then it is that key's suffix.
pub proof fn law_scoped_suffix_is_what_follows(branch: u32, key: Seq<u8>, suffix: Seq<u8>)
    ensures
        scoped_suffix_of(branch, key) == Some(suffix) <==> exists|kind: KeyPrefix|
            kind_scoped(kind) && key == #[trigger] full_key(branch, kind, suffix),
        is_scoped_key(branch, key) <==> scoped_suffix_of(branch, key) is Some,
{
    if scoped_suffix_of(branch, key) == Some(suffix) {
        law_scoped_key_rebuilds(branch, key);
        assert(key == full_key(branch, key_kind(key)->0, suffix));
    }
    if exists|kind: KeyPrefix|
        kind_scoped(kind) && key == #[trigger] full_key(branch, kind, suffix) {
        let kind = choose|kind: KeyPrefix|
            kind_scoped(kind) && key == #[trigger] full_key(branch, kind, suffix);
        law_full_key_parts(branch, kind, suffix);
    }
}

/// A key can be stripped of its branch, and shadowed by a tombstone, exactly if
/// it is a scoped key of that branch and the branch is not the root. What comes
/// out has the same kind and suffix.
pub proof fn law_only_branch_keys_are_stripped(branch: u32, key: Seq<u8>)
    ensures
        parent_key_of(branch, key) is Some <==> branch != 0 && scoped_suffix_of(branch, key)
            is Some,
        tombstone_key_of(branch, key) is Some <==> branch != 0 && scoped_suffix_of(branch, key)
            is Some,
        parent_key_of(branch, key) is Some ==> exists|kind: KeyPrefix, suffix: Seq<u8>|
            kind_scoped(kind) && key == #[trigger] full_key(branch, kind, suffix) && parent_key_of(
                branch,
                key,
            ) == Some(full_key(0, kind, suffix)) && tombstone_key_of(branch, key) == Some(
                tombstone_row(branch, kind, suffix),
            ),
{
    if parent_key_of(branch, key) is Some {
        law_scoped_key_rebuilds(branch, key);
        let kind = key_kind(key)->0;
        let suffix = key_suffix(branch, key);
        assert(key == full_key(branch, kind, suffix));
    }
}

/// A key can be adopted by a branch exactly if it is a scoped key in root layout
/// and the branch is not the root. What comes out has the same kind and suffix.
pub proof fn law_only_root_keys_are_adopted(branch: u32, parent: Seq<u8>)
    ensures
        adopted_key_of(branch, parent) is Some <==> branch != 0 && scoped_suffix_of(0, parent)
            is Some,
        adopted_key_of(branch, parent) is Some ==> exists|kind: KeyPrefix, suffix: Seq<u8>|
            kind_scoped(kind) && parent == #[trigger] full_key(0, kind, suffix) && adopted_key_of(
                branch,
                parent,
            ) == Some(full_key(branch, kind, suffix)),
{
    if adopted_key_of(branch, parent) is Some {
        law_scoped_key_rebuilds(0, parent);
        let kind = key_kind(parent)->0;
        let suffix = key_suffix(0, parent);
        assert(parent == full_key(0, kind, suffix));
    }
}

/// A scan bound moves to a branch's tombstone rows by trading its domain for the
/// tombstone header; a bound without a known domain, or with nothing behind it,
/// and any bound of the root have no place there.
pub proof fn law_bounds_trade_domain_for_header(branch: u32, rest: Seq<u8>, bound: Seq<u8>)
    ensures
        branch != 0 && rest.len() > 0 ==> tombstone_bound_of(branch, META_DOMAIN@ + rest) == Some(
            tombstone_header(branch) + rest,
        ),
        branch != 0 && rest.len() > 0 ==> tombstone_bound_of(branch, EXTENT_DOMAIN@ + rest) == Some(
            tombstone_header(branch) + rest,
        ),
        tombstone_bound_of(branch, bound) is Some ==> branch != 0 && exists|from: Seq<u8>|
            from.len() > 0 && #[trigger] (tombstone_header(branch) + from) == tombstone_bound_of(
                branch,
                bound,
            )->0 && (bound == META_DOMAIN@ + from || bound == EXTENT_DOMAIN@ + from),
{
    let meta = META_DOMAIN@ + rest;
    let extent = EXTENT_DOMAIN@ + rest;
    lemma_concat_parts(META_DOMAIN@, rest);
    lemma_concat_parts(EXTENT_DOMAIN@, rest);
    assert(meta.subrange(4, meta.len() as int) =~= rest);
    assert(extent.subrange(6, extent.len() as int) =~= rest);
    if starts_with(extent, META_DOMAIN@) {
        assert(extent.subrange(0, 4)[0] == META_DOMAIN@[0]);
        assert(extent[0] == EXTENT_DOMAIN@[0]);
    }
    if tombstone_bound_of(branch, bound) is Some {
        let from = bound_from_kind(bound)->0;
        if starts_with(bound, META_DOMAIN@) {
            lemma_prefix_splits(bound, META_DOMAIN@);
        } else {
            lemma_prefix_splits(bound, EXTENT_DOMAIN@);
        }
        assert(tombstone_header(branch) + from == tombstone_bound_of(branch, bound)->0);
    }
}

/// The end of a kind's range is its header counted up by one in the last place:
/// the branch id where the header holds one, or else the kind's number. The
/// highest branch id has no successor, and its range ends with the kind.
pub proof fn law_range_ends_are_successors(branch: u32, kind: KeyPrefix)
    ensures
        range_end(0, kind) == key_header(0, kind).drop_last().push(
            (key_header(0, kind).last() + 1) as u8,
        ),
        !kind_scoped(kind) || branch == 0 || branch == u32::MAX ==> range_end(branch, kind)
            == range_end(0, kind),
        kind_scoped(kind) && 0 < branch < u32::MAX ==> range_end(branch, kind) == key_header(
            (branch + 1) as u32,
            kind,
        ),
        branch < u32::MAX ==> tombstone_range_end(branch) == tombstone_header((branch + 1) as u32),
        tombstone_range_end(u32::MAX) == seq![0x6du8, 0x65u8, 0x74u8, 0x61u8, 0x0eu8],
{
    law_global_layout(0, kind);
    assert(range_end(0, kind) =~= key_header(0, kind).drop_last().push(
        (key_header(0, kind).last() + 1) as u8,
    ));
    if kind_scoped(kind) && 0 < branch < u32::MAX {
        assert(range_end(branch, kind) =~= key_header((branch + 1) as u32, kind));
    }
    assert(tombstone_range_end(u32::MAX) =~= seq![0x6du8, 0x65u8, 0x74u8, 0x61u8, 0x0eu8]);
}

/// Two numbers are read from a key exactly if it begins with the kind's domain
/// and number, and ends, behind a header of the given length, in those two
/// numbers.
pub proof fn law_two_ids_are_the_last_sixteen_bytes(
    key: Seq<u8>,
    kind: KeyPrefix,
    header_len: int,
    a: u64,
    b: u64,
)
    requires
        header_len >= 0,
    ensures
        two_ids(key, kind, header_len) == Some((a, b)) <==> key.len() == header_len + 16
            && starts_with(key, key_header(0, kind)) && key == key.take(header_len) + be64(a)
            + be64(b),
{
    law_global_layout(0, kind);
    if key.len() == header_len + 16 {
        let x = key.subrange(header_len, header_len + 8);
        let y = key.subrange(header_len + 8, header_len + 16);
        law_big_endian_reads_what_is_written(x, a);
        law_big_endian_reads_what_is_written(y, b);
        let whole = key.take(header_len) + be64(a) + be64(b);
        assert(key =~= key.take(header_len) + x + y);
        if key == whole {
            assert(x =~= be64(a)) by {
                assert(whole.subrange(header_len, header_len + 8) =~= be64(a));
            }
            assert(y =~= be64(b)) by {
                assert(whole.subrange(header_len + 8, header_len + 16) =~= be64(b));
            }
        }
    }
}

/// A scan row, a tombstone or an orphan is read from a key exactly if the key is
/// of that kind, has that kind's length under the branch, and ends in the number
/// read. Nothing else is read from a key.
pub proof fn law_parse_reads_the_last_number(branch: u32, key: Seq<u8>, n: u64)
    ensures
        parsed(branch, key) == (ParsedKey::DirScan { cookie: n }) <==> key_kind(key) == Some(
            KeyPrefix::DirScan,
        ) && key.len() == 21 && key == key.take(13) + be64(n),
        parsed(branch, key) == (ParsedKey::Tombstone { inode_id: n }) <==> key_kind(key) == Some(
            KeyPrefix::Tombstone,
        ) && key.len() == key_header(branch, KeyPrefix::Tombstone).len() + 16 && key == key.take(
            key.len() - 8,
        ) + be64(n),
        parsed(branch, key) == (ParsedKey::Orphan { inode_id: n }) <==> key_kind(key) == Some(
            KeyPrefix::Orphan,
        ) && key.len() == key_header(branch, KeyPrefix::Orphan).len() + 8 && key == key.take(
            key.len() - 8,
        ) + be64(n),
{
    if key.len() >= 8 {
        let cut = key.len() - 8;
        let tail = key.subrange(cut, key.len() as int);
        law_big_endian_reads_what_is_written(tail, n);
        assert(key =~= key.take(cut) + tail);
        if key == key.take(cut) + be64(n) {
            assert((key.take(cut) + be64(n)).subrange(cut, key.len() as int) =~= be64(n));
        }
        assert((key.take(cut) + be64(n)).len() == key.len());
    }
}

/// A stored number is its eight little-endian bytes, and nothing of another
/// length is one.
pub proof fn law_stored_number(data: Seq<u8>, value: u64)
    ensures
        u64_of(data) == Some(value) <==> data == le64(value),
{
    lemma_le64_round_trip(value);
    if data.len() == 8 {
        law_little_endian_reads_what_is_written(data, value);
    }
}

/// A stored flush time is the byte 1, the seconds and the nanoseconds, and
/// nothing else is one.
pub proof fn law_stored_flush_time(data: Seq<u8>, secs: u64, nanos: u32)
    ensures
        flush_time_bytes(secs, nanos) == seq![1u8] + le64(secs) + le32(nanos),
        flush_time_of(data) == Some((secs, nanos)) <==> data == seq![1u8] + le64(secs) + le32(nanos),
{
    let bytes = seq![1u8] + le64(secs) + le32(nanos);
    lemma_le64_round_trip(secs);
    lemma_le32_round_trip(nanos);
    assert(bytes.subrange(1, 9) =~= le64(secs));
    assert(bytes.subrange(9, 13) =~= le32(nanos));
    if data.len() == 13 {
        law_little_endian_reads_what_is_written(data.subrange(1, 9), secs);
        law_short_little_endian_reads_what_is_written(data.subrange(9, 13), nanos);
        assert(data =~= seq![data[0]] + data.subrange(1, 9) + data.subrange(9, 13));
    }
}

/// A stored segment counter is live and total bytes, or live bytes alone, which
/// count as the total too. A stored directory entry begins with inode and
/// cookie.
pub proof fn law_stored_pairs(data: Seq<u8>, a: u64, b: u64)
    ensures
        segcount_of(data) == Some((a, b)) <==> data == le64(a) + le64(b) || (a == b && data
            == le64(a)),
        dir_entry_of(data) == Some((a, b)) <==> data.len() >= 16 && data.take(16) == le64(a) + le64(
            b,
        ),
{
    let pair = le64(a) + le64(b);
    lemma_le64_round_trip(a);
    lemma_le64_round_trip(b);
    assert(pair.subrange(0, 8) =~= le64(a));
    assert(pair.subrange(8, 16) =~= le64(b));
    if data.len() >= 16 {
        let x = data.subrange(0, 8);
        let y = data.subrange(8, 16);
        law_little_endian_reads_what_is_written(x, a);
        law_little_endian_reads_what_is_written(y, b);
        assert(data.take(16) =~= x + y);
        if data.take(16) == pair {
            assert(x =~= pair.subrange(0, 8));
            assert(y =~= pair.subrange(8, 16));
        }
        if data.len() == 16 {
            assert(data.take(16) =~= data);
        }
    } else if data.len() == 8 {
        law_little_endian_reads_what_is_written(data, a);
        law_little_endian_reads_what_is_written(data, b);
    }
}

/// What a stored stamp may be: the epoch, the last shipped and the solo commits,
/// the applied frontier and whether the term ran Solo, each a number; or one of
/// the two older forms, which end after two or three numbers, take what was
/// shipped as applied, and count as having run Solo.
pub proof fn law_stored_stamp(data: Seq<u8>, stamp: StampFields)
    ensures
        ha_stamp_bytes(stamp) == le64(stamp.epoch) + le64(stamp.last_shipped) + le64(
            stamp.solo_commits,
        ) + le64(stamp.applied_through) + le64(
            if stamp.ran_solo {
                1
            } else {
                0
            },
        ),
        ha_stamp_of(data) == Some(stamp) <==> stamp.epoch != 0 && stamp.last_shipped
            <= stamp.applied_through && (stamp.solo_commits > 0 ==> stamp.ran_solo) && {
            let two = le64(stamp.epoch) + le64(stamp.last_shipped);
            ||| data == ha_stamp_bytes(stamp)
            ||| (data == two && stamp.solo_commits == 0 && stamp.applied_through
                == stamp.last_shipped && stamp.ran_solo)
            ||| (data == two + le64(stamp.solo_commits) && stamp.applied_through
                == stamp.last_shipped && stamp.ran_solo)
        },
{
    let ran: u64 = if stamp.ran_solo {
        1
    } else {
        0
    };
    let a = le64(stamp.epoch);
    let b = le64(stamp.last_shipped);
    let c = le64(stamp.solo_commits);
    let d = le64(stamp.applied_through);
    let e = le64(ran);
    lemma_le64_round_trip(stamp.epoch);
    lemma_le64_round_trip(stamp.last_shipped);
    lemma_le64_round_trip(stamp.solo_commits);
    lemma_le64_round_trip(stamp.applied_through);
    lemma_le64_round_trip(ran);
    if data.len() == 16 || data.len() == 24 || data.len() == 40 {
        law_little_endian_reads_what_is_written(data.subrange(0, 8), stamp.epoch);
        law_little_endian_reads_what_is_written(data.subrange(8, 16), stamp.last_shipped);
    }
    if data.len() == 16 {
        lemma_parts2(data, a, b);
    } else if data.len() == 24 {
        law_little_endian_reads_what_is_written(data.subrange(16, 24), stamp.solo_commits);
        lemma_parts3(data, a, b, c);
    } else if data.len() == 40 {
        law_little_endian_reads_what_is_written(data.subrange(16, 24), stamp.solo_commits);
        law_little_endian_reads_what_is_written(data.subrange(24, 32), stamp.applied_through);
        law_little_endian_reads_what_is_written(data.subrange(32, 40), ran);
        lemma_parts5(data, a, b, c, d, e);
    }
}

proof fn lemma_parts2(data: Seq<u8>, a: Seq<u8>, b: Seq<u8>)
    requires
        data.len() == 16,
        a.len() == 8,
        b.len() == 8,
    ensures
        data == a + b <==> data.subrange(0, 8) == a && data.subrange(8, 16) == b,
{
    assert(data =~= data.subrange(0, 8) + data.subrange(8, 16));
    assert((a + b).subrange(0, 8) =~= a);
    assert((a + b).subrange(8, 16) =~= b);
}

proof fn lemma_parts3(data: Seq<u8>, a: Seq<u8>, b: Seq<u8>, c: Seq<u8>)
    requires
        data.len() == 24,
        a.len() == 8,
        b.len() == 8,
        c.len() == 8,
    ensures
        data == a + b + c <==> data.subrange(0, 8) == a && data.subrange(8, 16) == b
            && data.subrange(16, 24) == c,
{
    assert(data =~= data.subrange(0, 8) + data.subrange(8, 16) + data.subrange(16, 24));
    assert((a + b + c).subrange(0, 8) =~= a);
    assert((a + b + c).subrange(8, 16) =~= b);
    assert((a + b + c).subrange(16, 24) =~= c);
}

proof fn lemma_parts5(data: Seq<u8>, a: Seq<u8>, b: Seq<u8>, c: Seq<u8>, d: Seq<u8>, e: Seq<u8>)
    requires
        data.len() == 40,
        a.len() == 8,
        b.len() == 8,
        c.len() == 8,
        d.len() == 8,
        e.len() == 8,
    ensures
        data == a + b + c + d + e <==> data.subrange(0, 8) == a && data.subrange(8, 16) == b
            && data.subrange(16, 24) == c && data.subrange(24, 32) == d && data.subrange(32, 40)
            == e,
{
    let all = a + b + c + d + e;
    assert(data =~= data.subrange(0, 8) + data.subrange(8, 16) + data.subrange(16, 24)
        + data.subrange(24, 32) + data.subrange(32, 40));
    assert(all.subrange(0, 8) =~= a);
    assert(all.subrange(8, 16) =~= b);
    assert(all.subrange(16, 24) =~= c);
    assert(all.subrange(24, 32) =~= d);
    assert(all.subrange(32, 40) =~= e);
}

/// The upper-case names of the kinds.
pub proof fn law_kind_names(kind: KeyPrefix)
    ensures
        kind_name(kind) == match kind {
            KeyPrefix::Inode => "INODE",
            KeyPrefix::Extent => "EXTENT",
            KeyPrefix::DirEntry => "DIR_ENTRY",
            KeyPrefix::DirScan => "DIR_SCAN",
            KeyPrefix::Tombstone => "TOMBSTONE",
            KeyPrefix::Orphan => "ORPHAN",
            KeyPrefix::Stats => "STATS",
            KeyPrefix::System => "SYSTEM",
            KeyPrefix::DirCookie => "DIR_COOKIE",
            KeyPrefix::SegCount => "SEGCOUNT",
            KeyPrefix::ForkLineage => "FORK_LINEAGE",
            KeyPrefix::ForkRegistry => "FORK_REGISTRY",
            KeyPrefix::FlushTime => "FLUSH_TIME",
            KeyPrefix::BranchTombstone => "BRANCH_TOMBSTONE",
            KeyPrefix::Branch => "BRANCH",
        }@,
{
}

/// A kind becomes the last byte of its header, and a byte becomes the kind whose
/// header ends in it, or nothing where no kind's does.
pub proof fn law_kinds_convert(byte: u8, kind: KeyPrefix)
    ensures
        <u8 as FromSpec<KeyPrefix>>::from_spec(kind) == key_header(0, kind).last(),
        <KeyPrefix as TryFromSpec<u8>>::try_from_spec(byte) == Ok::<KeyPrefix, ()>(kind) <==> byte
            == key_header(0, kind).last(),
        <KeyPrefix as TryFromSpec<u8>>::try_from_spec(byte) is Err ==> byte != key_header(
            0,
            kind,
        ).last(),
{
    law_kind_numbers(byte, kind);
    law_global_layout(0, kind);
}

/// The sizes that keys have: those of the root, and room for four bytes more
/// under a branch.
pub proof fn law_key_sizes(branch: u32, inode_id: u64, extent_index: u64)
    ensures
        full_key(0, KeyPrefix::Inode, be64(inode_id)).len() == 13,
        full_key(0, KeyPrefix::Extent, be64(inode_id) + be64(extent_index)).len() == 23,
        branch != 0 ==> full_key(branch, KeyPrefix::Inode, be64(inode_id)).len() == 17,
        branch != 0 ==> full_key(branch, KeyPrefix::Extent, be64(inode_id) + be64(extent_index)).len()
            == 27,
        INODE_KEY_SIZE == 13,
        EXTENT_KEY_SIZE == 23,
        U64_SIZE == 8,
        BRANCH_ID_SIZE == 4,
        MAX_INODE_KEY_SIZE == 17,
        MAX_EXTENT_KEY_SIZE == 27,
{
    law_key_bytes(0, KeyPrefix::Inode, be64(inode_id));
    law_key_bytes(0, KeyPrefix::Extent, be64(inode_id) + be64(extent_index));
    law_key_bytes(branch, KeyPrefix::Inode, be64(inode_id));
    law_key_bytes(branch, KeyPrefix::Extent, be64(inode_id) + be64(extent_index));
}

} // verus!
