//! Fixed-width integers as bytes, and the order of byte strings.
//!
//! Key components are big-endian, so that the order of keys is the order of
//! the numbers in them. Values are little-endian.

use vstd::prelude::*;

verus! {

/// `x` in four bytes, most significant first.
pub open spec fn be32(x: u32) -> Seq<u8> {
    seq![
        (x / 0x100_0000) as u8,
        (x / 0x1_0000 % 0x100) as u8,
        (x / 0x100 % 0x100) as u8,
        (x % 0x100) as u8,
    ]
}

/// `x` in eight bytes, most significant first.
pub open spec fn be64(x: u64) -> Seq<u8> {
    seq![
        (x / 0x100_0000_0000_0000) as u8,
        (x / 0x1_0000_0000_0000 % 0x100) as u8,
        (x / 0x100_0000_0000 % 0x100) as u8,
        (x / 0x1_0000_0000 % 0x100) as u8,
        (x / 0x100_0000 % 0x100) as u8,
        (x / 0x1_0000 % 0x100) as u8,
        (x / 0x100 % 0x100) as u8,
        (x % 0x100) as u8,
    ]
}

/// `x` in four bytes, least significant first.
pub open spec fn le32(x: u32) -> Seq<u8> {
    seq![
        (x % 0x100) as u8,
        (x / 0x100 % 0x100) as u8,
        (x / 0x1_0000 % 0x100) as u8,
        (x / 0x100_0000) as u8,
    ]
}

/// `x` in eight bytes, least significant first.
pub open spec fn le64(x: u64) -> Seq<u8> {
    seq![
        (x % 0x100) as u8,
        (x / 0x100 % 0x100) as u8,
        (x / 0x1_0000 % 0x100) as u8,
        (x / 0x100_0000 % 0x100) as u8,
        (x / 0x1_0000_0000 % 0x100) as u8,
        (x / 0x100_0000_0000 % 0x100) as u8,
        (x / 0x1_0000_0000_0000 % 0x100) as u8,
        (x / 0x100_0000_0000_0000) as u8,
    ]
}

/// The number that four bytes, most significant first, stand for.
pub open spec fn be32_value(s: Seq<u8>) -> u32
    recommends
        s.len() == 4,
{
    (s[0] * 0x100_0000 + s[1] * 0x1_0000 + s[2] * 0x100 + s[3]) as u32
}

/// The number that eight bytes, most significant first, stand for.
pub open spec fn be64_value(s: Seq<u8>) -> u64
    recommends
        s.len() == 8,
{
    (s[0] * 0x100_0000_0000_0000 + s[1] * 0x1_0000_0000_0000 + s[2] * 0x100_0000_0000 + s[3]
        * 0x1_0000_0000 + s[4] * 0x100_0000 + s[5] * 0x1_0000 + s[6] * 0x100 + s[7]) as u64
}

/// The number that four bytes, least significant first, stand for.
pub open spec fn le32_value(s: Seq<u8>) -> u32
    recommends
        s.len() == 4,
{
    (s[3] * 0x100_0000 + s[2] * 0x1_0000 + s[1] * 0x100 + s[0]) as u32
}

/// The number that eight bytes, least significant first, stand for.
pub open spec fn le64_value(s: Seq<u8>) -> u64
    recommends
        s.len() == 8,
{
    (s[7] * 0x100_0000_0000_0000 + s[6] * 0x1_0000_0000_0000 + s[5] * 0x100_0000_0000 + s[4]
        * 0x1_0000_0000 + s[3] * 0x100_0000 + s[2] * 0x1_0000 + s[1] * 0x100 + s[0]) as u64
}

/// A number is the weighted sum of its big-endian digits.
proof fn lemma_digits64(x: u64)
    ensures
        x == (x / 0x100_0000_0000_0000) * 0x100_0000_0000_0000 + (x / 0x1_0000_0000_0000 % 0x100)
            * 0x1_0000_0000_0000 + (x / 0x100_0000_0000 % 0x100) * 0x100_0000_0000 + (x
            / 0x1_0000_0000 % 0x100) * 0x1_0000_0000 + (x / 0x100_0000 % 0x100) * 0x100_0000 + (x
            / 0x1_0000 % 0x100) * 0x1_0000 + (x / 0x100 % 0x100) * 0x100 + x % 0x100,
        0 <= x / 0x100_0000_0000_0000 < 0x100,
{
    let x1 = x as int / 0x100;
    let x2 = x1 / 0x100;
    let x3 = x2 / 0x100;
    let x4 = x3 / 0x100;
    let x5 = x4 / 0x100;
    let x6 = x5 / 0x100;
    let x7 = x6 / 0x100;
    assert(x2 == x as int / 0x1_0000);
    assert(x3 == x as int / 0x100_0000);
    assert(x4 == x as int / 0x1_0000_0000);
    assert(x5 == x as int / 0x100_0000_0000);
    assert(x6 == x as int / 0x1_0000_0000_0000);
    assert(x7 == x as int / 0x100_0000_0000_0000);
    assert(x6 == x7 * 0x100 + x6 % 0x100);
    assert(x5 == x6 * 0x100 + x5 % 0x100);
    assert(x4 == x5 * 0x100 + x4 % 0x100);
    assert(x3 == x4 * 0x100 + x3 % 0x100);
    assert(x2 == x3 * 0x100 + x2 % 0x100);
    assert(x1 == x2 * 0x100 + x1 % 0x100);
    assert(x as int == x1 * 0x100 + x as int % 0x100);
}

/// Reading back four big-endian bytes gives the number that was written.
pub proof fn lemma_be32_round_trip(x: u32)
    ensures
        be32(x).len() == 4,
        be32_value(be32(x)) == x,
{
}

/// Every four bytes are the big-endian bytes of the number they stand for.
pub proof fn lemma_be32_onto(s: Seq<u8>)
    requires
        s.len() == 4,
    ensures
        be32(be32_value(s)) == s,
{
    let v1 = s[0] as int;
    let v2 = v1 * 0x100 + s[1];
    let v3 = v2 * 0x100 + s[2];
    let v4 = v3 * 0x100 + s[3];
    let x = be32_value(s);
    assert(x == v4);
    assert(v4 / 0x100 == v3 && v4 % 0x100 == s[3]);
    assert(v3 / 0x100 == v2 && v3 % 0x100 == s[2]);
    assert(v2 / 0x100 == v1 && v2 % 0x100 == s[1]);
    assert(v4 / 0x1_0000 == v2);
    assert(v4 / 0x100_0000 == v1);
    assert(be32(x) =~= s);
}

/// Reading back eight big-endian bytes gives the number that was written.
pub proof fn lemma_be64_round_trip(x: u64)
    ensures
        be64(x).len() == 8,
        be64_value(be64(x)) == x,
{
    lemma_digits64(x);
}

/// Reading back four little-endian bytes gives the number that was written.
pub proof fn lemma_le32_round_trip(x: u32)
    ensures
        le32(x).len() == 4,
        le32_value(le32(x)) == x,
{
}

/// Reading back eight little-endian bytes gives the number that was written.
pub proof fn lemma_le64_round_trip(x: u64)
    ensures
        le64(x).len() == 8,
        le64_value(le64(x)) == x,
{
    lemma_digits64(x);
}

/// Appends `x` to `out`, most significant byte first.
pub fn push_be32(out: &mut Vec<u8>, x: u32)
    ensures
        final(out)@ == old(out)@ + be32(x),
{
    out.push((x / 0x100_0000) as u8);
    out.push((x / 0x1_0000 % 0x100) as u8);
    out.push((x / 0x100 % 0x100) as u8);
    out.push((x % 0x100) as u8);
    assert(out@ =~= old(out)@ + be32(x));
}

/// Appends `x` to `out`, most significant byte first.
pub fn push_be64(out: &mut Vec<u8>, x: u64)
    ensures
        final(out)@ == old(out)@ + be64(x),
{
    out.push((x / 0x100_0000_0000_0000) as u8);
    out.push((x / 0x1_0000_0000_0000 % 0x100) as u8);
    out.push((x / 0x100_0000_0000 % 0x100) as u8);
    out.push((x / 0x1_0000_0000 % 0x100) as u8);
    out.push((x / 0x100_0000 % 0x100) as u8);
    out.push((x / 0x1_0000 % 0x100) as u8);
    out.push((x / 0x100 % 0x100) as u8);
    out.push((x % 0x100) as u8);
    assert(out@ =~= old(out)@ + be64(x));
}

/// Appends `x` to `out`, least significant byte first.
pub fn push_le32(out: &mut Vec<u8>, x: u32)
    ensures
        final(out)@ == old(out)@ + le32(x),
{
    out.push((x % 0x100) as u8);
    out.push((x / 0x100 % 0x100) as u8);
    out.push((x / 0x1_0000 % 0x100) as u8);
    out.push((x / 0x100_0000) as u8);
    assert(out@ =~= old(out)@ + le32(x));
}

/// Appends `x` to `out`, least significant byte first.
pub fn push_le64(out: &mut Vec<u8>, x: u64)
    ensures
        final(out)@ == old(out)@ + le64(x),
{
    out.push((x % 0x100) as u8);
    out.push((x / 0x100 % 0x100) as u8);
    out.push((x / 0x1_0000 % 0x100) as u8);
    out.push((x / 0x100_0000 % 0x100) as u8);
    out.push((x / 0x1_0000_0000 % 0x100) as u8);
    out.push((x / 0x100_0000_0000 % 0x100) as u8);
    out.push((x / 0x1_0000_0000_0000 % 0x100) as u8);
    out.push((x / 0x100_0000_0000_0000) as u8);
    assert(out@ =~= old(out)@ + le64(x));
}

/// `x` as an array of four bytes, most significant first.
pub fn be32_bytes(x: u32) -> (out: [u8; 4])
    ensures
        out@ == be32(x),
{
    let out = [
        (x / 0x100_0000) as u8,
        (x / 0x1_0000 % 0x100) as u8,
        (x / 0x100 % 0x100) as u8,
        (x % 0x100) as u8,
    ];
    assert(out@ =~= be32(x));
    out
}

/// `x` as an array of eight bytes, most significant first.
pub fn be64_bytes(x: u64) -> (out: [u8; 8])
    ensures
        out@ == be64(x),
{
    let out = [
        (x / 0x100_0000_0000_0000) as u8,
        (x / 0x1_0000_0000_0000 % 0x100) as u8,
        (x / 0x100_0000_0000 % 0x100) as u8,
        (x / 0x1_0000_0000 % 0x100) as u8,
        (x / 0x100_0000 % 0x100) as u8,
        (x / 0x1_0000 % 0x100) as u8,
        (x / 0x100 % 0x100) as u8,
        (x % 0x100) as u8,
    ];
    assert(out@ =~= be64(x));
    out
}

/// Every byte from position `at` on is zero.
pub open spec fn zero_from(buf: Seq<u8>, at: int) -> bool {
    forall|i: int| at <= i < buf.len() ==> buf[i] == 0
}

/// Writes `data` into `buf` from `at` on, where the buffer is still zero, and
/// returns where it ends.
pub fn write_at<const N: usize>(buf: &mut [u8; N], at: usize, data: &[u8]) -> (end: usize)
    requires
        at + data@.len() <= N,
        zero_from(old(buf)@, at as int),
    ensures
        end == at + data@.len(),
        final(buf)@.subrange(0, end as int) == old(buf)@.subrange(0, at as int) + data@,
        zero_from(final(buf)@, end as int),
{
    let mut i: usize = 0;
    while i < data.len()
        invariant
            at + data@.len() <= N,
            i <= data@.len(),
            zero_from(buf@, at + i),
            buf@.subrange(0, at + i) =~= old(buf)@.subrange(0, at as int) + data@.subrange(
                0,
                i as int,
            ),
        decreases data@.len() - i,
    {
        let ghost before = buf@;
        buf[at + i] = data[i];
        assert(buf@.subrange(0, at + i + 1) =~= before.subrange(0, at + i).push(data@[i as int]));
        assert(data@.subrange(0, i + 1) =~= data@.subrange(0, i as int).push(data@[i as int]));
        i += 1;
    }
    assert(data@.subrange(0, i as int) =~= data@);
    at + i
}

/// The big-endian number in the four bytes of `data` from `at` on.
pub fn read_be32(data: &[u8], at: usize) -> (x: u32)
    requires
        at + 4 <= data@.len(),
    ensures
        x == be32_value(data@.subrange(at as int, at + 4)),
{
    data[at] as u32 * 0x100_0000 + data[at + 1] as u32 * 0x1_0000 + data[at + 2] as u32 * 0x100
        + data[at + 3] as u32
}

/// The big-endian number in the eight bytes of `data` from `at` on.
pub fn read_be64(data: &[u8], at: usize) -> (x: u64)
    requires
        at + 8 <= data@.len(),
    ensures
        x == be64_value(data@.subrange(at as int, at + 8)),
{
    data[at] as u64 * 0x100_0000_0000_0000 + data[at + 1] as u64 * 0x1_0000_0000_0000 + data[at
        + 2] as u64 * 0x100_0000_0000 + data[at + 3] as u64 * 0x1_0000_0000 + data[at + 4] as u64
        * 0x100_0000 + data[at + 5] as u64 * 0x1_0000 + data[at + 6] as u64 * 0x100 + data[at
        + 7] as u64
}

/// The little-endian number in the four bytes of `data` from `at` on.
pub fn read_le32(data: &[u8], at: usize) -> (x: u32)
    requires
        at + 4 <= data@.len(),
    ensures
        x == le32_value(data@.subrange(at as int, at + 4)),
{
    assert(data.len() == data@.len());
    data[at + 3] as u32 * 0x100_0000 + data[at + 2] as u32 * 0x1_0000 + data[at + 1] as u32 * 0x100
        + data[at] as u32
}

/// The little-endian number in the eight bytes of `data` from `at` on.
pub fn read_le64(data: &[u8], at: usize) -> (x: u64)
    requires
        at + 8 <= data@.len(),
    ensures
        x == le64_value(data@.subrange(at as int, at + 8)),
{
    assert(data.len() == data@.len());
    data[at + 7] as u64 * 0x100_0000_0000_0000 + data[at + 6] as u64 * 0x1_0000_0000_0000 + data[at
        + 5] as u64 * 0x100_0000_0000 + data[at + 4] as u64 * 0x1_0000_0000 + data[at + 3] as u64
        * 0x100_0000 + data[at + 2] as u64 * 0x1_0000 + data[at + 1] as u64 * 0x100
        + data[at] as u64
}

/// Whether the two slices hold the same bytes.
pub fn same_bytes(a: &[u8], b: &[u8]) -> (same: bool)
    ensures
        same == (a@ == b@),
{
    if a.len() != b.len() {
        return false;
    }
    let mut i: usize = 0;
    while i < a.len()
        invariant
            i <= a@.len(),
            a@.len() == b@.len(),
            a@.subrange(0, i as int) =~= b@.subrange(0, i as int),
        decreases a@.len() - i,
    {
        if a[i] != b[i] {
            return false;
        }
        i += 1;
        assert(a@.subrange(0, i as int) =~= a@.subrange(0, i - 1).push(a@[i - 1]));
        assert(b@.subrange(0, i as int) =~= b@.subrange(0, i - 1).push(b@[i - 1]));
    }
    assert(a@ =~= a@.subrange(0, i as int));
    assert(b@ =~= b@.subrange(0, i as int));
    true
}

/// `data` begins with `prefix`.
pub open spec fn starts_with(data: Seq<u8>, prefix: Seq<u8>) -> bool {
    prefix.len() <= data.len() && data.subrange(0, prefix.len() as int) == prefix
}

/// A concatenation begins with its first part, and the second is the rest.
pub proof fn lemma_concat_parts(p: Seq<u8>, s: Seq<u8>)
    ensures
        starts_with(p + s, p),
        (p + s).subrange(p.len() as int, (p + s).len() as int) == s,
{
    assert((p + s).subrange(0, p.len() as int) =~= p);
    assert((p + s).subrange(p.len() as int, (p + s).len() as int) =~= s);
}

/// What begins with `p` is `p` and the rest.
pub proof fn lemma_prefix_splits(x: Seq<u8>, p: Seq<u8>)
    requires
        starts_with(x, p),
    ensures
        x == p + x.subrange(p.len() as int, x.len() as int),
{
    assert(x =~= p + x.subrange(p.len() as int, x.len() as int));
}

/// A common first part can be taken off a prefix test.
pub proof fn lemma_starts_with_same_prefix(p: Seq<u8>, x: Seq<u8>, q: Seq<u8>)
    ensures
        starts_with(p + x, p + q) <==> starts_with(x, q),
{
    if starts_with(x, q) {
        assert((p + x).subrange(0, (p + q).len() as int) =~= p + x.subrange(0, q.len() as int));
    }
    if starts_with(p + x, p + q) {
        assert forall|i: int| 0 <= i < q.len() implies x[i] == q[i] by {
            assert((p + x).subrange(0, (p + q).len() as int)[p.len() + i] == (p + q)[p.len() + i]);
        }
        assert(x.subrange(0, q.len() as int) =~= q);
    }
}

/// Whether `data` begins with `prefix`.
pub fn has_prefix(data: &[u8], prefix: &[u8]) -> (found: bool)
    ensures
        found == starts_with(data@, prefix@),
{
    if data.len() < prefix.len() {
        return false;
    }
    same_bytes(vstd::slice::slice_subrange(data, 0, prefix.len()), prefix)
}

/// Appends the bytes of `data` to `out`.
pub fn push_all(out: &mut Vec<u8>, data: &[u8])
    ensures
        final(out)@ == old(out)@ + data@,
{
    out.extend_from_slice(data);
    assert(out@ =~= old(out)@ + data@);
}

/// Two byte strings agree before position `i` and are told apart there: the
/// first ends, or its byte is the smaller one.
pub open spec fn less_at(a: Seq<u8>, b: Seq<u8>, i: int) -> bool {
    &&& 0 <= i <= a.len()
    &&& i < b.len()
    &&& a.subrange(0, i) == b.subrange(0, i)
    &&& i < a.len() ==> a[i] < b[i]
}

/// Byte-wise lexicographic order: the order of keys in the store.
pub open spec fn lex_lt(a: Seq<u8>, b: Seq<u8>) -> bool {
    exists|i: int| less_at(a, b, i)
}

/// `a` equals `b` or comes before it.
pub open spec fn lex_le(a: Seq<u8>, b: Seq<u8>) -> bool {
    a == b || lex_lt(a, b)
}

/// How one byte string stands to another.
#[derive(Clone, Copy, Debug, PartialEq, Eq, Structural)]
pub enum KeyOrder {
    Before,
    Same,
    After,
}

/// Where `a` stands relative to `b` in key order.
pub fn key_order(a: &[u8], b: &[u8]) -> (order: KeyOrder)
    ensures
        order == KeyOrder::Before <==> lex_lt(a@, b@),
        order == KeyOrder::Same <==> a@ == b@,
        order == KeyOrder::After <==> lex_lt(b@, a@),
{
    proof {
        lemma_lex_lt_asymmetric(a@, b@);
        lemma_lex_lt_asymmetric(b@, b@);
    }
    let mut i: usize = 0;
    while i < a.len() && i < b.len()
        invariant
            i <= a@.len(),
            i <= b@.len(),
            a@.subrange(0, i as int) =~= b@.subrange(0, i as int),
            !(lex_lt(a@, b@) && lex_lt(b@, a@)),
            !lex_lt(b@, b@),
        decreases a@.len() - i,
    {
        if a[i] < b[i] {
            assert(less_at(a@, b@, i as int));
            return KeyOrder::Before;
        }
        if a[i] > b[i] {
            assert(less_at(b@, a@, i as int));
            return KeyOrder::After;
        }
        i += 1;
        assert(a@.subrange(0, i as int) =~= a@.subrange(0, i - 1).push(a@[i - 1]));
        assert(b@.subrange(0, i as int) =~= b@.subrange(0, i - 1).push(b@[i - 1]));
    }
    if i < b.len() {
        assert(less_at(a@, b@, i as int));
        return KeyOrder::Before;
    }
    if i < a.len() {
        assert(less_at(b@, a@, i as int));
        return KeyOrder::After;
    }
    assert(a@ =~= a@.subrange(0, i as int));
    assert(b@ =~= b@.subrange(0, i as int));
    KeyOrder::Same
}

/// No byte string comes before itself, and of two at most one comes first.
pub proof fn lemma_lex_lt_asymmetric(a: Seq<u8>, b: Seq<u8>)
    ensures
        !(lex_lt(a, b) && lex_lt(b, a)),
        !lex_lt(a, a),
{
    if lex_lt(a, b) && lex_lt(b, a) {
        let i = choose|i: int| less_at(a, b, i);
        let j = choose|j: int| less_at(b, a, j);
        if i < j {
            assert(a.subrange(0, j)[i] == b.subrange(0, j)[i]);
        } else if j < i {
            assert(a.subrange(0, i)[j] == b.subrange(0, i)[j]);
        }
    }
    if lex_lt(a, a) {
        let i = choose|i: int| less_at(a, a, i);
        assert(less_at(a, a, i));
    }
}

/// The order is transitive.
pub proof fn lemma_lex_lt_transitive(a: Seq<u8>, b: Seq<u8>, c: Seq<u8>)
    requires
        lex_lt(a, b),
        lex_lt(b, c),
    ensures
        lex_lt(a, c),
{
    let i = choose|i: int| less_at(a, b, i);
    let j = choose|j: int| less_at(b, c, j);
    let k = if i < j {
        i
    } else {
        j
    };
    assert(a.subrange(0, k) =~= a.subrange(0, i).subrange(0, k));
    assert(b.subrange(0, k) =~= b.subrange(0, i).subrange(0, k));
    assert(b.subrange(0, k) =~= b.subrange(0, j).subrange(0, k));
    assert(c.subrange(0, k) =~= c.subrange(0, j).subrange(0, k));
    if i < j {
        assert(b.subrange(0, j)[i] == c.subrange(0, j)[i]);
    } else if j < i {
        assert(a.subrange(0, i)[j] == b.subrange(0, i)[j]);
    }
    assert(less_at(a, c, k));
}

/// Order at or before is transitive, and strict where a step is.
pub proof fn lemma_le_chain(a: Seq<u8>, b: Seq<u8>, c: Seq<u8>)
    ensures
        lex_le(a, b) && lex_le(b, c) ==> lex_le(a, c),
        lex_lt(a, b) && lex_le(b, c) ==> lex_lt(a, c),
        lex_le(a, b) && lex_lt(b, c) ==> lex_lt(a, c),
{
    if lex_lt(a, b) && lex_lt(b, c) {
        lemma_lex_lt_transitive(a, b, c);
    }
}

/// Any two different byte strings are ordered.
pub proof fn lemma_lex_lt_total(a: Seq<u8>, b: Seq<u8>)
    ensures
        a == b || lex_lt(a, b) || lex_lt(b, a),
    decreases a.len(),
{
    if a.len() == 0 {
        if b.len() == 0 {
            assert(a =~= b);
        } else {
            assert(a.subrange(0, 0) =~= b.subrange(0, 0));
            assert(less_at(a, b, 0));
        }
    } else if b.len() == 0 {
        assert(a.subrange(0, 0) =~= b.subrange(0, 0));
        assert(less_at(b, a, 0));
    } else if a[0] != b[0] {
        assert(a.subrange(0, 0) =~= b.subrange(0, 0));
        if a[0] < b[0] {
            assert(less_at(a, b, 0));
        } else {
            assert(less_at(b, a, 0));
        }
    } else {
        let p = seq![a[0]];
        let a1 = a.subrange(1, a.len() as int);
        let b1 = b.subrange(1, b.len() as int);
        lemma_lex_lt_total(a1, b1);
        assert(a =~= p + a1);
        assert(b =~= p + b1);
        lemma_lex_lt_same_prefix(p, a1, b1);
        lemma_lex_lt_same_prefix(p, b1, a1);
    }
}

/// A common prefix does not change the order.
pub proof fn lemma_lex_lt_same_prefix(p: Seq<u8>, a: Seq<u8>, b: Seq<u8>)
    ensures
        lex_lt(p + a, p + b) <==> lex_lt(a, b),
{
    if lex_lt(a, b) {
        let i = choose|i: int| less_at(a, b, i);
        let k = p.len() + i;
        assert((p + a).subrange(0, k) =~= p + a.subrange(0, i));
        assert((p + b).subrange(0, k) =~= p + b.subrange(0, i));
        assert(less_at(p + a, p + b, k));
    }
    if lex_lt(p + a, p + b) {
        let k = choose|k: int| less_at(p + a, p + b, k);
        if k < p.len() {
            assert((p + a)[k] == p[k] && (p + b)[k] == p[k]);
        }
        let i = k - p.len();
        assert forall|j: int| 0 <= j < i implies a[j] == b[j] by {
            assert((p + a).subrange(0, k)[p.len() + j] == (p + b).subrange(0, k)[p.len() + j]);
        }
        assert(a.subrange(0, i) =~= b.subrange(0, i));
        assert(less_at(a, b, i));
    }
}

/// Strings that differ within a first part of equal length are ordered by
/// that part, whatever follows.
pub proof fn lemma_lex_lt_first_part(a: Seq<u8>, b: Seq<u8>, x: Seq<u8>, y: Seq<u8>)
    requires
        a.len() == b.len(),
        lex_lt(a, b),
    ensures
        lex_lt(a + x, b + y),
{
    let i = choose|i: int| less_at(a, b, i);
    assert((a + x).subrange(0, i) =~= a.subrange(0, i));
    assert((b + y).subrange(0, i) =~= b.subrange(0, i));
    assert(less_at(a + x, b + y, i));
}

/// A string comes at or before each of its extensions.
pub proof fn lemma_lex_le_extension(a: Seq<u8>, x: Seq<u8>)
    ensures
        lex_le(a, a + x),
{
    if x.len() == 0 {
        assert(a =~= a + x);
    } else {
        assert((a + x).subrange(0, a.len() as int) =~= a.subrange(0, a.len() as int));
        assert(less_at(a, a + x, a.len() as int));
    }
}

/// `key` lies in the half-open range `[start, end)`.
pub open spec fn in_range(key: Seq<u8>, start: Seq<u8>, end: Seq<u8>) -> bool {
    lex_le(start, key) && lex_lt(key, end)
}

/// The strings from `p || x` up to `p || x + 1`, for one byte `x`, are those
/// that begin with `p || x`.
pub proof fn lemma_byte_range(p: Seq<u8>, x: u8, key: Seq<u8>)
    requires
        x < 0xff,
    ensures
        in_range(key, p.push(x), p.push((x + 1) as u8)) <==> starts_with(key, p.push(x)),
{
    let start = p.push(x);
    let end = p.push((x + 1) as u8);
    if starts_with(key, start) {
        lemma_prefix_splits(key, start);
        let rest = key.subrange(start.len() as int, key.len() as int);
        lemma_lex_le_extension(start, rest);
        assert(start.subrange(0, p.len() as int) =~= p);
        assert(end.subrange(0, p.len() as int) =~= p);
        assert(less_at(start, end, p.len() as int));
        lemma_lex_lt_first_part(start, end, rest, Seq::empty());
        assert(end + Seq::<u8>::empty() =~= end);
    } else if in_range(key, start, end) {
        lemma_lex_lt_total(key, start);
        let i = choose|i: int| less_at(key, end, i);
        let j = choose|j: int| less_at(start, key, j);
        let n = p.len() as int;
        if i < n {
            assert(end.subrange(0, i) =~= p.subrange(0, i));
            assert(start.subrange(0, i) =~= p.subrange(0, i));
            assert(less_at(key, start, i));
            lemma_lex_lt_asymmetric(key, start);
        } else {
            assert(i == n);
            assert(key.subrange(0, n) =~= p);
            if key.len() == n {
                assert(start.subrange(0, n) =~= p);
                assert(less_at(key, start, n));
                lemma_lex_lt_asymmetric(key, start);
            } else if key[n] < x {
                assert(start.subrange(0, n) =~= p);
                assert(less_at(key, start, n));
                lemma_lex_lt_asymmetric(key, start);
            } else {
                assert(key.subrange(0, n + 1) =~= p.push(x));
            }
        }
    }
}

/// Of the strings with at least four bytes after `p`, those from
/// `p || x` up to `p || x + 1`, for a four-byte number `x`, are the ones that
/// begin with `p || x`.
pub proof fn lemma_word_range(p: Seq<u8>, x: u32, key: Seq<u8>)
    requires
        x < u32::MAX,
        key.len() >= p.len() + 4,
    ensures
        in_range(key, p + be32(x), p + be32((x + 1) as u32)) <==> starts_with(key, p + be32(x)),
{
    let y = (x + 1) as u32;
    let start = p + be32(x);
    let end = p + be32(y);
    let n = p.len() as int;
    let none = Seq::<u8>::empty();
    lemma_be32_order(x, y);
    lemma_lex_lt_same_prefix(p, be32(x), be32(y));
    if starts_with(key, start) {
        lemma_prefix_splits(key, start);
        let rest = key.subrange(start.len() as int, key.len() as int);
        lemma_lex_le_extension(start, rest);
        lemma_lex_lt_first_part(start, end, rest, none);
        assert(end + none =~= end);
    } else if in_range(key, start, end) {
        let head = key.subrange(0, n);
        let word = key.subrange(n, n + 4);
        let rest = key.subrange(n + 4, key.len() as int);
        assert(key =~= (head + word) + rest);
        assert(start + none =~= start);
        assert(end + none =~= end);
        lemma_lex_lt_total(head + word, start);
        if head + word == start {
            assert(key.subrange(0, n + 4) =~= head + word);
        } else if lex_lt(head + word, start) {
            lemma_lex_lt_first_part(head + word, start, rest, none);
            lemma_lex_lt_asymmetric(key, start);
        } else {
            lemma_lex_lt_total(head, p);
            if lex_lt(head, p) {
                lemma_lex_lt_first_part(head, p, word, be32(x));
                lemma_lex_lt_asymmetric(head + word, start);
            } else if lex_lt(p, head) {
                lemma_lex_lt_first_part(p, head, be32(y), word + rest);
                assert(head + (word + rest) =~= key);
                lemma_lex_lt_asymmetric(key, end);
            } else {
                let w = be32_value(word);
                lemma_be32_onto(word);
                lemma_lex_lt_same_prefix(p, be32(x), word);
                lemma_be32_order(x, w);
                lemma_be32_order(y, w);
                if w == y {
                    lemma_lex_le_extension(end, rest);
                    lemma_lex_lt_asymmetric(key, end);
                } else {
                    lemma_lex_lt_same_prefix(p, be32(y), word);
                    lemma_lex_lt_first_part(end, head + word, none, rest);
                    lemma_lex_lt_asymmetric(key, end);
                }
            }
        }
    }
}

/// The strings from `p || x || ff ff ff ff` up to `p || x + 1` are those that
/// begin with the start.
pub proof fn lemma_last_word_range(p: Seq<u8>, x: u8, key: Seq<u8>)
    requires
        x < 0xff,
    ensures
        in_range(key, p.push(x) + be32(u32::MAX), p.push((x + 1) as u8)) <==> starts_with(
            key,
            p.push(x) + be32(u32::MAX),
        ),
{
    let q = p.push(x);
    let max = be32(u32::MAX);
    let start = q + max;
    let end = p.push((x + 1) as u8);
    lemma_byte_range(p, x, key);
    lemma_lex_le_extension(q, max);
    if starts_with(key, start) {
        lemma_prefix_splits(key, start);
        let rest = key.subrange(start.len() as int, key.len() as int);
        lemma_lex_le_extension(start, rest);
        assert(key =~= q + (max + rest));
        lemma_concat_parts(q, max + rest);
    } else if in_range(key, start, end) {
        assert(start.subrange(0, start.len() as int) =~= start);
        assert(key != start);
        if start != q {
            lemma_lex_lt_transitive(q, start, key);
        }
        let rest = key.subrange(q.len() as int, key.len() as int);
        lemma_prefix_splits(key, q);
        lemma_starts_with_same_prefix(q, rest, max);
        lemma_lex_lt_same_prefix(q, max, rest);
        let i = choose|i: int| less_at(max, rest, i);
        assert(less_at(max, rest, i));
        if i < 4 {
            assert(max[i] == 0xff);
        } else {
            assert(rest.subrange(0, 4) =~= max.subrange(0, 4));
            assert(max.subrange(0, 4) =~= max);
        }
    }
}

/// Big-endian bytes are ordered as the numbers are.
pub proof fn lemma_be32_order(x: u32, y: u32)
    ensures
        lex_lt(be32(x), be32(y)) <==> x < y,
{
    let a = be32(x);
    let b = be32(y);
    lemma_be32_round_trip(x);
    lemma_be32_round_trip(y);
    lemma_lex_lt_total(a, b);
    lemma_lex_lt_asymmetric(a, b);
    if lex_lt(a, b) {
        lemma_be32_less(x, y);
    }
    if lex_lt(b, a) {
        lemma_be32_less(y, x);
    }
}

proof fn lemma_be32_less(x: u32, y: u32)
    requires
        lex_lt(be32(x), be32(y)),
    ensures
        x < y,
{
    let a = be32(x);
    let b = be32(y);
    let i = choose|i: int| less_at(a, b, i);
    assert forall|j: int| 0 <= j < i implies a[j] == b[j] by {
        assert(a.subrange(0, i)[j] == b.subrange(0, i)[j]);
    }
    assert(i < a.len() && a[i] < b[i]);
    lemma_be32_round_trip(x);
    lemma_be32_round_trip(y);
    lemma_weighted_less32(a, b, i);
}

/// Of two four-digit strings, the one with the smaller digit at the first
/// difference stands for the smaller number.
proof fn lemma_weighted_less32(a: Seq<u8>, b: Seq<u8>, i: int)
    requires
        a.len() == 4,
        b.len() == 4,
        0 <= i < 4,
        a[i] < b[i],
        forall|j: int| 0 <= j < i ==> a[j] == b[j],
    ensures
        be32_value(a) < be32_value(b),
{
    assert(i == 0 || i == 1 || i == 2 || i == 3);
}

/// Big-endian bytes are ordered as the numbers are.
pub proof fn lemma_be64_order(x: u64, y: u64)
    ensures
        lex_lt(be64(x), be64(y)) <==> x < y,
{
    let a = be64(x);
    let b = be64(y);
    lemma_be64_round_trip(x);
    lemma_be64_round_trip(y);
    lemma_lex_lt_total(a, b);
    lemma_lex_lt_asymmetric(a, b);
    if lex_lt(a, b) {
        lemma_be64_less(x, y);
    }
    if lex_lt(b, a) {
        lemma_be64_less(y, x);
    }
}

proof fn lemma_be64_less(x: u64, y: u64)
    requires
        lex_lt(be64(x), be64(y)),
    ensures
        x < y,
{
    let a = be64(x);
    let b = be64(y);
    let i = choose|i: int| less_at(a, b, i);
    assert forall|j: int| 0 <= j < i implies a[j] == b[j] by {
        assert(a.subrange(0, i)[j] == b.subrange(0, i)[j]);
    }
    assert(i < a.len() && a[i] < b[i]);
    lemma_be64_round_trip(x);
    lemma_be64_round_trip(y);
    lemma_weighted_less64(a, b, i);
}

/// Of two eight-digit strings, the one with the smaller digit at the first
/// difference stands for the smaller number.
proof fn lemma_weighted_less64(a: Seq<u8>, b: Seq<u8>, i: int)
    requires
        a.len() == 8,
        b.len() == 8,
        0 <= i < 8,
        a[i] < b[i],
        forall|j: int| 0 <= j < i ==> a[j] == b[j],
    ensures
        be64_value(a) < be64_value(b),
{
    assert(i == 0 || i == 1 || i == 2 || i == 3 || i == 4 || i == 5 || i == 6 || i == 7);
}

} // verus!
