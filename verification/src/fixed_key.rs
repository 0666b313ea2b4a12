//! Inode and extent keys in fixed arrays.
//!
//! The two hottest key kinds are built without an allocation. The array is
//! sized for the layout with a branch id and padded with zeros; equality and
//! order act on the key bytes, not on the padding.

use crate::blob::{bytes_copy_of, bytes_seq};
use crate::encoding::{
    key_order, lemma_lex_lt_asymmetric, lemma_lex_lt_total, lex_lt, same_bytes, zero_from, KeyOrder,
};
use bytes::Bytes;
use std::cmp::Ordering;
use vstd::prelude::*;
use vstd::slice::slice_subrange;
use vstd::std_specs::cmp::{PartialEqSpec, PartialOrdSpec};

verus! {

/// Bytes of an inode key with a branch id.
pub const MAX_INODE_KEY_SIZE: usize = 17;
/// Bytes of an extent key with a branch id.
pub const MAX_EXTENT_KEY_SIZE: usize = 27;

/// The first `len` bytes are the key; the rest is zero.
#[derive(Debug, Clone, Copy, Eq, Ord, Hash)]
pub struct InodeKey {
    bytes: [u8; MAX_INODE_KEY_SIZE],
    len: usize,
}

impl View for InodeKey {
    type V = Seq<u8>;

    closed spec fn view(&self) -> Seq<u8> {
        self.bytes@.subrange(0, self.len as int)
    }
}

impl InodeKey {
    #[verifier::type_invariant]
    spec fn padded(self) -> bool {
        &&& self.len <= MAX_INODE_KEY_SIZE
        &&& zero_from(self.bytes@, self.len as int)
    }

    /// The key in the first `len` bytes of a zero-padded array.
    pub(crate) fn new(bytes: [u8; MAX_INODE_KEY_SIZE], len: usize) -> (key: Self)
        requires
            len <= MAX_INODE_KEY_SIZE,
            zero_from(bytes@, len as int),
        ensures
            key@ == bytes@.subrange(0, len as int),
    {
        InodeKey { bytes, len }
    }
}

impl AsRef<[u8]> for InodeKey {
    fn as_ref(&self) -> (key: &[u8])
        ensures
            key@ == self@,
    {
        proof {
            use_type_invariant(self);
        }
        slice_subrange(self.bytes.as_slice(), 0, self.len)
    }
}

impl PartialEq for InodeKey {
    fn eq(&self, other: &Self) -> (same: bool) {
        same_bytes(self.as_ref(), other.as_ref())
    }
}

impl vstd::std_specs::cmp::PartialEqSpecImpl for InodeKey {
    open spec fn obeys_eq_spec() -> bool {
        true
    }

    open spec fn eq_spec(&self, other: &Self) -> bool {
        self@ == other@
    }
}

impl PartialOrd for InodeKey {
    fn partial_cmp(&self, other: &Self) -> (order: Option<Ordering>) {
        Some(
            match key_order(self.as_ref(), other.as_ref()) {
                KeyOrder::Before => Ordering::Less,
                KeyOrder::Same => Ordering::Equal,
                KeyOrder::After => Ordering::Greater,
            },
        )
    }
}

impl vstd::std_specs::cmp::PartialOrdSpecImpl for InodeKey {
    open spec fn obeys_partial_cmp_spec() -> bool {
        true
    }

    open spec fn partial_cmp_spec(&self, other: &Self) -> Option<Ordering> {
        if lex_lt(self@, other@) {
            Some(Ordering::Less)
        } else if self@ == other@ {
            Some(Ordering::Equal)
        } else {
            Some(Ordering::Greater)
        }
    }
}

impl From<InodeKey> for Bytes {
    fn from(key: InodeKey) -> (b: Self)
        ensures
            bytes_seq(b) == key@,
    {
        bytes_copy_of(key.as_ref())
    }
}

impl vstd::std_specs::convert::FromSpecImpl<InodeKey> for Bytes {
    open spec fn obeys_from_spec() -> bool {
        false
    }

    open spec fn from_spec(key: InodeKey) -> Self {
        arbitrary()
    }
}

/// The first `len` bytes are the key; the rest is zero.
#[derive(Debug, Clone, Copy, Eq, Ord, Hash)]
pub struct ExtentKey {
    bytes: [u8; MAX_EXTENT_KEY_SIZE],
    len: usize,
}

impl View for ExtentKey {
    type V = Seq<u8>;

    closed spec fn view(&self) -> Seq<u8> {
        self.bytes@.subrange(0, self.len as int)
    }
}

impl ExtentKey {
    #[verifier::type_invariant]
    spec fn padded(self) -> bool {
        &&& self.len <= MAX_EXTENT_KEY_SIZE
        &&& zero_from(self.bytes@, self.len as int)
    }

    /// The key in the first `len` bytes of a zero-padded array.
    pub(crate) fn new(bytes: [u8; MAX_EXTENT_KEY_SIZE], len: usize) -> (key: Self)
        requires
            len <= MAX_EXTENT_KEY_SIZE,
            zero_from(bytes@, len as int),
        ensures
            key@ == bytes@.subrange(0, len as int),
    {
        ExtentKey { bytes, len }
    }
}

impl AsRef<[u8]> for ExtentKey {
    fn as_ref(&self) -> (key: &[u8])
        ensures
            key@ == self@,
    {
        proof {
            use_type_invariant(self);
        }
        slice_subrange(self.bytes.as_slice(), 0, self.len)
    }
}

impl PartialEq for ExtentKey {
    fn eq(&self, other: &Self) -> (same: bool) {
        same_bytes(self.as_ref(), other.as_ref())
    }
}

impl vstd::std_specs::cmp::PartialEqSpecImpl for ExtentKey {
    open spec fn obeys_eq_spec() -> bool {
        true
    }

    open spec fn eq_spec(&self, other: &Self) -> bool {
        self@ == other@
    }
}

impl PartialOrd for ExtentKey {
    fn partial_cmp(&self, other: &Self) -> (order: Option<Ordering>) {
        Some(
            match key_order(self.as_ref(), other.as_ref()) {
                KeyOrder::Before => Ordering::Less,
                KeyOrder::Same => Ordering::Equal,
                KeyOrder::After => Ordering::Greater,
            },
        )
    }
}

impl vstd::std_specs::cmp::PartialOrdSpecImpl for ExtentKey {
    open spec fn obeys_partial_cmp_spec() -> bool {
        true
    }

    open spec fn partial_cmp_spec(&self, other: &Self) -> Option<Ordering> {
        if lex_lt(self@, other@) {
            Some(Ordering::Less)
        } else if self@ == other@ {
            Some(Ordering::Equal)
        } else {
            Some(Ordering::Greater)
        }
    }
}

impl From<ExtentKey> for Bytes {
    fn from(key: ExtentKey) -> (b: Self)
        ensures
            bytes_seq(b) == key@,
    {
        bytes_copy_of(key.as_ref())
    }
}

impl vstd::std_specs::convert::FromSpecImpl<ExtentKey> for Bytes {
    open spec fn obeys_from_spec() -> bool {
        false
    }

    open spec fn from_spec(key: ExtentKey) -> Self {
        arbitrary()
    }
}

/// Fixed keys are the same exactly if their bytes are, and one comes before
/// another exactly if its bytes do: the padding plays no part.
pub proof fn law_fixed_keys_compare_by_bytes(a: InodeKey, b: InodeKey, c: ExtentKey, d: ExtentKey)
    ensures
        a.eq_spec(&b) <==> a@ == b@,
        c.eq_spec(&d) <==> c@ == d@,
        a.partial_cmp_spec(&b) == Some(Ordering::Less) <==> lex_lt(a@, b@),
        a.partial_cmp_spec(&b) == Some(Ordering::Equal) <==> a@ == b@,
        a.partial_cmp_spec(&b) == Some(Ordering::Greater) <==> lex_lt(b@, a@),
        c.partial_cmp_spec(&d) == Some(Ordering::Less) <==> lex_lt(c@, d@),
        c.partial_cmp_spec(&d) == Some(Ordering::Equal) <==> c@ == d@,
        c.partial_cmp_spec(&d) == Some(Ordering::Greater) <==> lex_lt(d@, c@),
{
    lemma_lex_lt_total(a@, b@);
    lemma_lex_lt_asymmetric(a@, b@);
    lemma_lex_lt_asymmetric(a@, a@);
    lemma_lex_lt_total(c@, d@);
    lemma_lex_lt_asymmetric(c@, d@);
    lemma_lex_lt_asymmetric(c@, c@);
}

} // verus!
