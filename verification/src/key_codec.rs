//! Key layout for the underlying LSM.
//!
//! Every key is `[b"meta" | b"extent"] + [kind: 1] + [branch?: 4] + suffix`.
//!
//! The leading domain routes a key to its segment: all metadata kinds live in
//! the `meta` segment, extent pointers in `extent`. A basin branch is a
//! fork-like namespace inside one volume's LSM. Keys of the *branch-scoped*
//! kinds gain a 4-byte big-endian branch id right after the kind byte under a
//! non-root branch:
//!
//! ```text
//! branch 0:                     domain || kind || suffix
//! branch > 0, scoped kinds:     domain || kind || branch: u32 BE || suffix
//! ```
//!
//! Unscoped kinds are volume-level state and keep the global layout under
//! every branch.

use crate::blob::{bytes_from_vec, bytes_seq, opt_seq, opt_slice};
use crate::encoding::{
    be32, be32_bytes, be64, be64_bytes, be64_value, has_prefix, push_all, push_be32, push_be64,
    read_be64, starts_with, write_at,
};
use crate::fixed_key::{ExtentKey, InodeKey, MAX_EXTENT_KEY_SIZE, MAX_INODE_KEY_SIZE};
use bytes::Bytes;
use vstd::prelude::*;
use vstd::slice::slice_subrange;
use vstd::utf8::encode_utf8;

verus! {

pub const PREFIX_INODE: u8 = 0x01;
pub const PREFIX_DIR_ENTRY: u8 = 0x02;
pub const PREFIX_DIR_SCAN: u8 = 0x03;
pub const PREFIX_DIR_COOKIE: u8 = 0x04;
pub const PREFIX_STATS: u8 = 0x05;
pub const PREFIX_SYSTEM: u8 = 0x06;
pub const PREFIX_TOMBSTONE: u8 = 0x07;
pub const PREFIX_ORPHAN: u8 = 0x08;
pub const PREFIX_SEGCOUNT: u8 = 0x09;
pub const PREFIX_FORK_LINEAGE: u8 = 0x0A;
pub const PREFIX_FORK_REGISTRY: u8 = 0x0B;
pub const PREFIX_FLUSH_TIME: u8 = 0x0C;
pub const PREFIX_BRANCH_TOMBSTONE: u8 = 0x0D;
pub const PREFIX_BRANCH: u8 = 0x0E;
pub const PREFIX_EXTENT: u8 = 0xFE;

/// Domain prefix for any metadata kind: `b"meta"`.
pub const META_DOMAIN: [u8; 4] = [0x6d, 0x65, 0x74, 0x61];
/// Domain prefix for bulk extent data: `b"extent"`.
pub const EXTENT_DOMAIN: [u8; 6] = [0x65, 0x78, 0x74, 0x65, 0x6e, 0x74];

/// Version byte preceding the payload of every flush-time index value.
/// Durable data: never reuse a lower number with a different layout.
pub const FLUSH_TIME_RECORD_VERSION: u8 = 1;
/// The entire value of every branch-tombstone row. The row's presence is the
/// signal; the byte leaves room for a payload.
pub const BRANCH_TOMBSTONE_RECORD_VERSION: u8 = 1;

/// Bytes of a number in a key.
pub const U64_SIZE: usize = 8;
/// Bytes the branch id contributes to a scoped key under a non-root branch.
pub const BRANCH_ID_SIZE: usize = 4;
/// Bytes of a root inode key.
pub const INODE_KEY_SIZE: usize = 13;
/// Bytes of a root extent key.
pub const EXTENT_KEY_SIZE: usize = 23;

pub type InodeId = u64;

/// Identifies a basin branch within a volume's LSM. `BranchId(0)` is the
/// volume root: it uses the layout without branch bytes.
#[derive(Debug, Clone, Copy, PartialEq, Eq, PartialOrd, Ord, Hash, Default, Structural)]
pub struct BranchId(pub u32);

impl BranchId {
    /// The volume root: the implicit branch of every volume.
    pub fn root() -> (branch: BranchId)
        ensures
            branch.0 == 0,
    {
        BranchId(0)
    }

    pub fn is_root(self) -> (root: bool)
        ensures
            root == (self.0 == 0),
    {
        self.0 == 0
    }
}

/// The kind of a key, stored as one byte after the domain.
#[derive(Debug, Clone, Copy, PartialEq, Eq, Hash, Structural)]
pub enum KeyPrefix {
    Inode,
    Extent,
    DirEntry,
    DirScan,
    Tombstone,
    Orphan,
    Stats,
    System,
    DirCookie,
    SegCount,
    ForkLineage,
    ForkRegistry,
    FlushTime,
    BranchTombstone,
    Branch,
}

/// The kind byte of `kind`.
pub open spec fn kind_byte(kind: KeyPrefix) -> u8 {
    match kind {
        KeyPrefix::Inode => PREFIX_INODE,
        KeyPrefix::Extent => PREFIX_EXTENT,
        KeyPrefix::DirEntry => PREFIX_DIR_ENTRY,
        KeyPrefix::DirScan => PREFIX_DIR_SCAN,
        KeyPrefix::Tombstone => PREFIX_TOMBSTONE,
        KeyPrefix::Orphan => PREFIX_ORPHAN,
        KeyPrefix::Stats => PREFIX_STATS,
        KeyPrefix::System => PREFIX_SYSTEM,
        KeyPrefix::DirCookie => PREFIX_DIR_COOKIE,
        KeyPrefix::SegCount => PREFIX_SEGCOUNT,
        KeyPrefix::ForkLineage => PREFIX_FORK_LINEAGE,
        KeyPrefix::ForkRegistry => PREFIX_FORK_REGISTRY,
        KeyPrefix::FlushTime => PREFIX_FLUSH_TIME,
        KeyPrefix::BranchTombstone => PREFIX_BRANCH_TOMBSTONE,
        KeyPrefix::Branch => PREFIX_BRANCH,
    }
}

/// The kind that a kind byte stands for, if any.
pub open spec fn kind_of_byte(byte: u8) -> Option<KeyPrefix> {
    if byte == PREFIX_INODE {
        Some(KeyPrefix::Inode)
    } else if byte == PREFIX_EXTENT {
        Some(KeyPrefix::Extent)
    } else if byte == PREFIX_DIR_ENTRY {
        Some(KeyPrefix::DirEntry)
    } else if byte == PREFIX_DIR_SCAN {
        Some(KeyPrefix::DirScan)
    } else if byte == PREFIX_TOMBSTONE {
        Some(KeyPrefix::Tombstone)
    } else if byte == PREFIX_ORPHAN {
        Some(KeyPrefix::Orphan)
    } else if byte == PREFIX_STATS {
        Some(KeyPrefix::Stats)
    } else if byte == PREFIX_SYSTEM {
        Some(KeyPrefix::System)
    } else if byte == PREFIX_DIR_COOKIE {
        Some(KeyPrefix::DirCookie)
    } else if byte == PREFIX_SEGCOUNT {
        Some(KeyPrefix::SegCount)
    } else if byte == PREFIX_FORK_LINEAGE {
        Some(KeyPrefix::ForkLineage)
    } else if byte == PREFIX_FORK_REGISTRY {
        Some(KeyPrefix::ForkRegistry)
    } else if byte == PREFIX_FLUSH_TIME {
        Some(KeyPrefix::FlushTime)
    } else if byte == PREFIX_BRANCH_TOMBSTONE {
        Some(KeyPrefix::BranchTombstone)
    } else if byte == PREFIX_BRANCH {
        Some(KeyPrefix::Branch)
    } else {
        None
    }
}

/// Whether keys of `kind` carry the branch id under a non-root branch.
pub open spec fn kind_scoped(kind: KeyPrefix) -> bool {
    kind == KeyPrefix::Inode || kind == KeyPrefix::DirEntry || kind == KeyPrefix::DirCookie || kind
        == KeyPrefix::Tombstone || kind == KeyPrefix::Orphan || kind == KeyPrefix::SegCount || kind
        == KeyPrefix::Extent
}

/// The domain that keys of `kind` begin with.
pub open spec fn kind_domain(kind: KeyPrefix) -> Seq<u8> {
    if kind == KeyPrefix::Extent {
        EXTENT_DOMAIN@
    } else {
        META_DOMAIN@
    }
}

impl TryFrom<u8> for KeyPrefix {
    type Error = ();

    fn try_from(byte: u8) -> (kind: Result<Self, Self::Error>) {
        match byte {
            PREFIX_INODE => Ok(KeyPrefix::Inode),
            PREFIX_EXTENT => Ok(KeyPrefix::Extent),
            PREFIX_DIR_ENTRY => Ok(KeyPrefix::DirEntry),
            PREFIX_DIR_SCAN => Ok(KeyPrefix::DirScan),
            PREFIX_TOMBSTONE => Ok(KeyPrefix::Tombstone),
            PREFIX_ORPHAN => Ok(KeyPrefix::Orphan),
            PREFIX_STATS => Ok(KeyPrefix::Stats),
            PREFIX_SYSTEM => Ok(KeyPrefix::System),
            PREFIX_DIR_COOKIE => Ok(KeyPrefix::DirCookie),
            PREFIX_SEGCOUNT => Ok(KeyPrefix::SegCount),
            PREFIX_FORK_LINEAGE => Ok(KeyPrefix::ForkLineage),
            PREFIX_FORK_REGISTRY => Ok(KeyPrefix::ForkRegistry),
            PREFIX_FLUSH_TIME => Ok(KeyPrefix::FlushTime),
            PREFIX_BRANCH_TOMBSTONE => Ok(KeyPrefix::BranchTombstone),
            PREFIX_BRANCH => Ok(KeyPrefix::Branch),
            _ => Err(()),
        }
    }
}

impl vstd::std_specs::convert::TryFromSpecImpl<u8> for KeyPrefix {
    open spec fn obeys_try_from_spec() -> bool {
        true
    }

    open spec fn try_from_spec(byte: u8) -> Result<Self, Self::Error> {
        match kind_of_byte(byte) {
            Some(kind) => Ok(kind),
            None => Err(()),
        }
    }
}

impl From<KeyPrefix> for u8 {
    fn from(prefix: KeyPrefix) -> (byte: Self) {
        match prefix {
            KeyPrefix::Inode => PREFIX_INODE,
            KeyPrefix::Extent => PREFIX_EXTENT,
            KeyPrefix::DirEntry => PREFIX_DIR_ENTRY,
            KeyPrefix::DirScan => PREFIX_DIR_SCAN,
            KeyPrefix::Tombstone => PREFIX_TOMBSTONE,
            KeyPrefix::Orphan => PREFIX_ORPHAN,
            KeyPrefix::Stats => PREFIX_STATS,
            KeyPrefix::System => PREFIX_SYSTEM,
            KeyPrefix::DirCookie => PREFIX_DIR_COOKIE,
            KeyPrefix::SegCount => PREFIX_SEGCOUNT,
            KeyPrefix::ForkLineage => PREFIX_FORK_LINEAGE,
            KeyPrefix::ForkRegistry => PREFIX_FORK_REGISTRY,
            KeyPrefix::FlushTime => PREFIX_FLUSH_TIME,
            KeyPrefix::BranchTombstone => PREFIX_BRANCH_TOMBSTONE,
            KeyPrefix::Branch => PREFIX_BRANCH,
        }
    }
}

impl vstd::std_specs::convert::FromSpecImpl<KeyPrefix> for u8 {
    open spec fn obeys_from_spec() -> bool {
        true
    }

    open spec fn from_spec(prefix: KeyPrefix) -> Self {
        kind_byte(prefix)
    }
}

/// The upper-case name of `kind`.
pub open spec fn kind_name(kind: KeyPrefix) -> Seq<char> {
    match kind {
        KeyPrefix::Inode => "INODE"@,
        KeyPrefix::Extent => "EXTENT"@,
        KeyPrefix::DirEntry => "DIR_ENTRY"@,
        KeyPrefix::DirScan => "DIR_SCAN"@,
        KeyPrefix::Tombstone => "TOMBSTONE"@,
        KeyPrefix::Orphan => "ORPHAN"@,
        KeyPrefix::Stats => "STATS"@,
        KeyPrefix::System => "SYSTEM"@,
        KeyPrefix::DirCookie => "DIR_COOKIE"@,
        KeyPrefix::SegCount => "SEGCOUNT"@,
        KeyPrefix::ForkLineage => "FORK_LINEAGE"@,
        KeyPrefix::ForkRegistry => "FORK_REGISTRY"@,
        KeyPrefix::FlushTime => "FLUSH_TIME"@,
        KeyPrefix::BranchTombstone => "BRANCH_TOMBSTONE"@,
        KeyPrefix::Branch => "BRANCH"@,
    }
}

impl KeyPrefix {
    pub fn as_str(self) -> (name: &'static str)
        ensures
            name@ == kind_name(self),
    {
        match self {
            KeyPrefix::Inode => "INODE",
            KeyPrefix::Extent => "EXTENT",
            KeyPrefix::DirEntry => "DIR_ENTRY",
            KeyPrefix::DirScan => "DIR_SCAN",
            KeyPrefix::Tombstone => "TOMBSTONE",
            KeyPrefix::Orphan => "ORPHAN",
            KeyPrefix::Stats => "STATS",
            KeyPrefix::System => "SYSTEM",
            KeyPrefix::DirCookie => "DIR_COOKIE",
            KeyPrefix::SegCount => "SEGCOUNT",
            KeyPrefix::ForkLineage => "FORK_LINEAGE",
            KeyPrefix::ForkRegistry => "FORK_REGISTRY",
            KeyPrefix::FlushTime => "FLUSH_TIME",
            KeyPrefix::BranchTombstone => "BRANCH_TOMBSTONE",
            KeyPrefix::Branch => "BRANCH",
        }
    }

    /// Whether keys of this kind carry the branch-id dimension under a
    /// non-root branch. Unscoped kinds are volume-level state and keep the
    /// global layout for every branch.
    pub fn is_scoped(self) -> (scoped: bool)
        ensures
            scoped == kind_scoped(self),
    {
        matches!(
            self,
            KeyPrefix::Inode
                | KeyPrefix::DirEntry
                | KeyPrefix::DirCookie
                | KeyPrefix::Tombstone
                | KeyPrefix::Orphan
                | KeyPrefix::SegCount
                | KeyPrefix::Extent
        )
    }

    /// Appends the domain that keys of this kind begin with.
    fn push_domain(self, key: &mut Vec<u8>)
        ensures
            final(key)@ == old(key)@ + kind_domain(self),
    {
        match self {
            KeyPrefix::Extent => push_all(key, &EXTENT_DOMAIN),
            _ => push_all(key, &META_DOMAIN),
        }
    }
}

/// The branch id as it stands in keys of `kind`: four bytes for a scoped kind
/// under a non-root branch, nothing otherwise.
pub open spec fn branch_field(branch: u32, kind: KeyPrefix) -> Seq<u8> {
    if kind_scoped(kind) && branch != 0 {
        be32(branch)
    } else {
        Seq::empty()
    }
}

/// What every key of `kind` begins with under `branch`: domain, kind byte and
/// branch field.
pub open spec fn key_header(branch: u32, kind: KeyPrefix) -> Seq<u8> {
    kind_domain(kind).push(kind_byte(kind)) + branch_field(branch, kind)
}

/// A full key.
pub open spec fn full_key(branch: u32, kind: KeyPrefix, suffix: Seq<u8>) -> Seq<u8> {
    key_header(branch, kind) + suffix
}

/// The kind of a stored key: the domain it begins with and the byte after
/// that must belong together.
pub open spec fn key_kind(key: Seq<u8>) -> Option<KeyPrefix> {
    if starts_with(key, EXTENT_DOMAIN@) {
        if key.len() > 6 && key[6] == PREFIX_EXTENT {
            Some(KeyPrefix::Extent)
        } else {
            None
        }
    } else if starts_with(key, META_DOMAIN@) {
        if key.len() > 4 && key[4] != PREFIX_EXTENT {
            kind_of_byte(key[4])
        } else {
            None
        }
    } else {
        None
    }
}

/// `key` is a scoped key in the layout of `branch`.
pub open spec fn is_scoped_key(branch: u32, key: Seq<u8>) -> bool {
    match key_kind(key) {
        Some(kind) => kind_scoped(kind) && starts_with(key, key_header(branch, kind)),
        None => false,
    }
}

/// What follows the header in a scoped key of `branch`.
pub open spec fn key_suffix(branch: u32, key: Seq<u8>) -> Seq<u8>
    recommends
        is_scoped_key(branch, key),
{
    key.subrange(key_header(branch, key_kind(key)->0).len() as int, key.len() as int)
}

/// The suffix of `key`, where it is a scoped key in the layout of `branch`.
pub open spec fn scoped_suffix_of(branch: u32, key: Seq<u8>) -> Option<Seq<u8>> {
    if is_scoped_key(branch, key) {
        Some(key_suffix(branch, key))
    } else {
        None
    }
}

/// The root-layout form of a scoped key of the non-root `branch`.
pub open spec fn parent_key_of(branch: u32, key: Seq<u8>) -> Option<Seq<u8>> {
    if branch != 0 && is_scoped_key(branch, key) {
        Some(full_key(0, key_kind(key)->0, key_suffix(branch, key)))
    } else {
        None
    }
}

/// The form under the non-root `branch` of a scoped key in root layout.
pub open spec fn adopted_key_of(branch: u32, parent: Seq<u8>) -> Option<Seq<u8>> {
    if branch != 0 && is_scoped_key(0, parent) {
        Some(full_key(branch, key_kind(parent)->0, key_suffix(0, parent)))
    } else {
        None
    }
}

/// What every tombstone row of `branch` begins with.
pub open spec fn tombstone_header(branch: u32) -> Seq<u8> {
    META_DOMAIN@.push(PREFIX_BRANCH_TOMBSTONE) + be32(branch)
}

/// The row that marks the parent's key of `kind` with `suffix` as deleted in
/// `branch`.
pub open spec fn tombstone_row(branch: u32, kind: KeyPrefix, suffix: Seq<u8>) -> Seq<u8> {
    tombstone_header(branch).push(kind_byte(kind)) + suffix
}

/// The tombstone row for a scoped key of the non-root `branch`.
pub open spec fn tombstone_key_of(branch: u32, shadowed: Seq<u8>) -> Option<Seq<u8>> {
    if branch != 0 && is_scoped_key(branch, shadowed) {
        Some(tombstone_row(branch, key_kind(shadowed)->0, key_suffix(branch, shadowed)))
    } else {
        None
    }
}

/// First key past the keys of `kind` under `branch`.
pub open spec fn range_end(branch: u32, kind: KeyPrefix) -> Seq<u8> {
    if kind_scoped(kind) && branch != 0 && branch < u32::MAX {
        kind_domain(kind).push(kind_byte(kind)) + be32((branch + 1) as u32)
    } else {
        kind_domain(kind).push((kind_byte(kind) + 1) as u8)
    }
}

/// First key past the tombstone rows of `branch`.
pub open spec fn tombstone_range_end(branch: u32) -> Seq<u8> {
    if branch < u32::MAX {
        tombstone_header((branch + 1) as u32)
    } else {
        META_DOMAIN@.push((PREFIX_BRANCH_TOMBSTONE + 1) as u8)
    }
}

/// The part of a scan bound from its kind byte on.
pub open spec fn bound_from_kind(bound: Seq<u8>) -> Option<Seq<u8>> {
    if starts_with(bound, META_DOMAIN@) {
        Some(bound.subrange(4, bound.len() as int))
    } else if starts_with(bound, EXTENT_DOMAIN@) {
        Some(bound.subrange(6, bound.len() as int))
    } else {
        None
    }
}

/// A parent-view scan bound, moved under the tombstone header of `branch`.
pub open spec fn tombstone_bound_of(branch: u32, bound: Seq<u8>) -> Option<Seq<u8>> {
    match bound_from_kind(bound) {
        Some(rest) => if branch != 0 && rest.len() > 0 {
            Some(tombstone_header(branch) + rest)
        } else {
            None
        },
        None => None,
    }
}

/// The two numbers of a key `header || u64 BE || u64 BE` whose header has
/// `header_len` bytes and begins with `domain || kind`.
pub open spec fn two_ids(key: Seq<u8>, kind: KeyPrefix, header_len: int) -> Option<(u64, u64)> {
    if key.len() == header_len + 16 && starts_with(key, kind_domain(kind).push(kind_byte(kind))) {
        Some(
            (
                be64_value(key.subrange(header_len, header_len + 8)),
                be64_value(key.subrange(header_len + 8, header_len + 16)),
            ),
        )
    } else {
        None
    }
}

/// What [`KeyCodec::parse_key`] reads from a key.
pub open spec fn parsed(branch: u32, key: Seq<u8>) -> ParsedKey {
    match key_kind(key) {
        Some(KeyPrefix::DirScan) => if key.len() == 21 {
            ParsedKey::DirScan { cookie: be64_value(key.subrange(13, 21)) }
        } else {
            ParsedKey::Unknown
        },
        Some(KeyPrefix::Tombstone) => {
            let id = key_header(branch, KeyPrefix::Tombstone).len() as int;
            if key.len() == id + 16 {
                ParsedKey::Tombstone { inode_id: be64_value(key.subrange(id + 8, id + 16)) }
            } else {
                ParsedKey::Unknown
            }
        },
        Some(KeyPrefix::Orphan) => {
            let id = key_header(branch, KeyPrefix::Orphan).len() as int;
            if key.len() == id + 8 {
                ParsedKey::Orphan { inode_id: be64_value(key.subrange(id, id + 8)) }
            } else {
                ParsedKey::Unknown
            }
        },
        _ => ParsedKey::Unknown,
    }
}

/// What a parse of a raw key yields.
#[derive(Debug, Clone, Copy, PartialEq, Eq, Structural)]
pub enum ParsedKey {
    DirScan { cookie: u64 },
    Tombstone { inode_id: InodeId },
    Orphan { inode_id: InodeId },
    Unknown,
}

/// Per-volume key encoder and decoder. Its only state is the branch:
/// [`KeyCodec::new`] builds the root codec, [`KeyCodec::for_branch`] one whose
/// scoped keys embed the branch id.
#[derive(Debug, Clone, Copy, PartialEq, Eq, Structural)]
pub struct KeyCodec {
    branch: BranchId,
}

impl View for KeyCodec {
    type V = u32;

    closed spec fn view(&self) -> u32 {
        self.branch.0
    }
}

impl Default for KeyCodec {
    fn default() -> (codec: Self)
        ensures
            codec@ == 0,
    {
        KeyCodec::new()
    }
}

impl KeyCodec {
    pub fn new() -> (codec: Self)
        ensures
            codec@ == 0,
    {
        KeyCodec { branch: BranchId::root() }
    }

    /// Codec for a basin branch. The root branch gives the same layout as
    /// [`KeyCodec::new`]; any other inserts its id, big-endian, after the kind
    /// byte of every scoped key.
    pub fn for_branch(branch: BranchId) -> (codec: Self)
        ensures
            codec@ == branch.0,
    {
        KeyCodec { branch }
    }

    pub fn branch(&self) -> (branch: BranchId)
        ensures
            branch.0 == self@,
    {
        self.branch
    }

    /// Number of bytes the domain prefix contributes for `prefix`.
    pub fn domain_len(&self, prefix: KeyPrefix) -> (len: usize)
        ensures
            len == kind_domain(prefix).len(),
    {
        match prefix {
            KeyPrefix::Extent => 6,
            _ => 4,
        }
    }

    /// Byte offset where the kind byte lives for `prefix`.
    pub fn kind_offset(&self, prefix: KeyPrefix) -> (offset: usize)
        ensures
            offset == kind_domain(prefix).len(),
    {
        self.domain_len(prefix)
    }

    /// Bytes the branch id contributes to keys of `prefix` under this codec.
    fn branch_bytes(&self, prefix: KeyPrefix) -> (n: usize)
        ensures
            n == branch_field(self@, prefix).len(),
            n == 0 || n == BRANCH_ID_SIZE,
    {
        if prefix.is_scoped() && !self.branch.is_root() {
            BRANCH_ID_SIZE
        } else {
            0
        }
    }

    /// Byte offset where the part after the header lives for `prefix`.
    pub fn id_offset(&self, prefix: KeyPrefix) -> (offset: usize)
        ensures
            offset == key_header(self@, prefix).len(),
            5 <= offset <= 11,
    {
        self.kind_offset(prefix) + 1 + self.branch_bytes(prefix)
    }

    /// Appends domain, kind byte and, for scoped kinds under a non-root
    /// branch, the branch id.
    fn push_prefix(&self, key: &mut Vec<u8>, prefix: KeyPrefix)
        ensures
            final(key)@ == old(key)@ + key_header(self@, prefix),
    {
        prefix.push_domain(key);
        key.push(u8::from(prefix));
        if self.branch_bytes(prefix) == BRANCH_ID_SIZE {
            push_be32(key, self.branch.0);
        }
        assert(key@ =~= old(key)@ + key_header(self@, prefix));
    }

    /// The header of `prefix` as a vector.
    fn header(&self, prefix: KeyPrefix) -> (key: Vec<u8>)
        ensures
            key@ == key_header(self@, prefix),
    {
        let mut key: Vec<u8> = Vec::new();
        self.push_prefix(&mut key, prefix);
        assert(key@ =~= key_header(self@, prefix));
        key
    }

    /// Total bytes in a complete inode key.
    pub fn inode_key_size(&self) -> (size: usize)
        ensures
            size == key_header(self@, KeyPrefix::Inode).len() + 8,
    {
        INODE_KEY_SIZE + self.branch_bytes(KeyPrefix::Inode)
    }

    /// Total bytes in a complete extent key.
    pub fn extent_key_size(&self) -> (size: usize)
        ensures
            size == key_header(self@, KeyPrefix::Extent).len() + 16,
    {
        EXTENT_KEY_SIZE + self.branch_bytes(KeyPrefix::Extent)
    }

    /// Total bytes in a complete tombstone key.
    pub fn tombstone_key_size(&self) -> (size: usize)
        ensures
            size == key_header(self@, KeyPrefix::Tombstone).len() + 16,
    {
        self.id_offset(KeyPrefix::Tombstone) + U64_SIZE * 2
    }

    /// Total bytes in a complete orphan key.
    pub fn orphan_key_size(&self) -> (size: usize)
        ensures
            size == key_header(self@, KeyPrefix::Orphan).len() + 8,
    {
        self.id_offset(KeyPrefix::Orphan) + U64_SIZE
    }

    /// Key of an inode.
    pub fn inode_key(&self, inode_id: InodeId) -> (key: InodeKey)
        ensures
            key@ == full_key(self@, KeyPrefix::Inode, be64(inode_id)),
    {
        let mut bytes: [u8; MAX_INODE_KEY_SIZE] = [0u8; MAX_INODE_KEY_SIZE];
        let mut end: usize = write_at(&mut bytes, 0, &META_DOMAIN);
        end = write_at(&mut bytes, end, &[PREFIX_INODE]);
        if self.branch_bytes(KeyPrefix::Inode) == BRANCH_ID_SIZE {
            end = write_at(&mut bytes, end, &be32_bytes(self.branch.0));
        }
        assert(bytes@.subrange(0, end as int) =~= key_header(self@, KeyPrefix::Inode));
        let end: usize = write_at(&mut bytes, end, &be64_bytes(inode_id));
        InodeKey::new(bytes, end)
    }

    /// Key of one extent of an inode.
    pub fn extent_key(&self, inode_id: InodeId, extent_index: u64) -> (key: ExtentKey)
        ensures
            key@ == full_key(self@, KeyPrefix::Extent, be64(inode_id) + be64(extent_index)),
    {
        let mut bytes: [u8; MAX_EXTENT_KEY_SIZE] = [0u8; MAX_EXTENT_KEY_SIZE];
        let mut end: usize = write_at(&mut bytes, 0, &EXTENT_DOMAIN);
        end = write_at(&mut bytes, end, &[PREFIX_EXTENT]);
        if self.branch_bytes(KeyPrefix::Extent) == BRANCH_ID_SIZE {
            end = write_at(&mut bytes, end, &be32_bytes(self.branch.0));
        }
        assert(bytes@.subrange(0, end as int) =~= key_header(self@, KeyPrefix::Extent));
        end = write_at(&mut bytes, end, &be64_bytes(inode_id));
        end = write_at(&mut bytes, end, &be64_bytes(extent_index));
        assert(bytes@.subrange(0, end as int) =~= full_key(
            self@,
            KeyPrefix::Extent,
            be64(inode_id) + be64(extent_index),
        ));
        ExtentKey::new(bytes, end)
    }

    /// The kind of a stored key, or `None` if the key is too short, lacks a
    /// domain prefix, or carries a kind byte that is unknown or belongs to the
    /// other domain. Only domain and kind byte are read, so any branch's codec
    /// can tell the kind of any branch's key.
    pub fn peek_kind(&self, key: &[u8]) -> (kind: Option<KeyPrefix>)
        ensures
            kind == key_kind(key@),
    {
        if has_prefix(key, &EXTENT_DOMAIN) {
            if key.len() > 6 && key[6] == PREFIX_EXTENT {
                return Some(KeyPrefix::Extent);
            }
            return None;
        }
        if has_prefix(key, &META_DOMAIN) {
            if key.len() > 4 && key[4] != PREFIX_EXTENT {
                return match KeyPrefix::try_from(key[4]) {
                    Ok(kind) => Some(kind),
                    Err(_) => None,
                };
            }
            return None;
        }
        None
    }

    pub fn parse_key(&self, key: &[u8]) -> (parsed_key: ParsedKey)
        ensures
            parsed_key == parsed(self@, key@),
    {
        let kind = match self.peek_kind(key) {
            Some(kind) => kind,
            None => return ParsedKey::Unknown,
        };
        let id_off: usize = self.id_offset(kind);
        match kind {
            KeyPrefix::DirScan => {
                if key.len() != id_off + U64_SIZE * 2 {
                    return ParsedKey::Unknown;
                }
                ParsedKey::DirScan { cookie: read_be64(key, id_off + U64_SIZE) }
            },
            KeyPrefix::Tombstone => {
                if key.len() != self.tombstone_key_size() {
                    return ParsedKey::Unknown;
                }
                ParsedKey::Tombstone { inode_id: read_be64(key, id_off + U64_SIZE) }
            },
            KeyPrefix::Orphan => {
                if key.len() != self.orphan_key_size() {
                    return ParsedKey::Unknown;
                }
                ParsedKey::Orphan { inode_id: read_be64(key, id_off) }
            },
            _ => ParsedKey::Unknown,
        }
    }

    /// Key of a segment's byte counters, by its `(epoch, counter)` segment id.
    /// Big-endian, so that a prefix scan visits segments in creation order.
    pub fn segcount_key(&self, epoch: u64, counter: u64) -> (key: Bytes)
        ensures
            bytes_seq(key) == full_key(self@, KeyPrefix::SegCount, be64(epoch) + be64(counter)),
    {
        let mut key: Vec<u8> = self.header(KeyPrefix::SegCount);
        push_be64(&mut key, epoch);
        push_be64(&mut key, counter);
        assert(key@ =~= full_key(self@, KeyPrefix::SegCount, be64(epoch) + be64(counter)));
        bytes_from_vec(key)
    }

    /// Key of this volume's own fork-lineage record, present only in forks.
    pub fn fork_lineage_key(&self) -> (key: Bytes)
        ensures
            bytes_seq(key) == key_header(self@, KeyPrefix::ForkLineage),
    {
        let key: Vec<u8> = self.header(KeyPrefix::ForkLineage);
        bytes_from_vec(key)
    }

    /// Key of the registry entry that names a direct fork of this volume.
    pub fn fork_registry_key(&self, name: &str) -> (key: Bytes)
        ensures
            bytes_seq(key) == full_key(self@, KeyPrefix::ForkRegistry, encode_utf8(name@)),
    {
        let mut key: Vec<u8> = self.header(KeyPrefix::ForkRegistry);
        push_all(&mut key, name.as_bytes());
        assert(key@ =~= full_key(self@, KeyPrefix::ForkRegistry, encode_utf8(name@)));
        bytes_from_vec(key)
    }

    /// Prefix of every fork-registry entry.
    pub fn fork_registry_prefix(&self) -> (key: Bytes)
        ensures
            bytes_seq(key) == key_header(self@, KeyPrefix::ForkRegistry),
    {
        let key: Vec<u8> = self.header(KeyPrefix::ForkRegistry);
        bytes_from_vec(key)
    }

    /// Key of the flush-time index row for a manifest. Big-endian, so that a
    /// prefix scan visits flushes in publication order.
    pub fn flush_time_key(&self, manifest_id: u64) -> (key: Bytes)
        ensures
            bytes_seq(key) == full_key(self@, KeyPrefix::FlushTime, be64(manifest_id)),
    {
        let mut key: Vec<u8> = self.header(KeyPrefix::FlushTime);
        push_be64(&mut key, manifest_id);
        assert(key@ =~= full_key(self@, KeyPrefix::FlushTime, be64(manifest_id)));
        bytes_from_vec(key)
    }

    /// Prefix of every flush-time index row.
    pub fn flush_time_prefix(&self) -> (key: Bytes)
        ensures
            bytes_seq(key) == key_header(self@, KeyPrefix::FlushTime),
    {
        let key: Vec<u8> = self.header(KeyPrefix::FlushTime);
        bytes_from_vec(key)
    }

    /// Key of the entry `name` in the directory `dir_id`.
    pub fn dir_entry_key(&self, dir_id: InodeId, name: &[u8]) -> (key: Bytes)
        ensures
            bytes_seq(key) == full_key(self@, KeyPrefix::DirEntry, be64(dir_id) + name@),
    {
        let mut key: Vec<u8> = self.header(KeyPrefix::DirEntry);
        push_be64(&mut key, dir_id);
        push_all(&mut key, name);
        assert(key@ =~= full_key(self@, KeyPrefix::DirEntry, be64(dir_id) + name@));
        bytes_from_vec(key)
    }

    /// Prefix of every entry of `dir_id`; under it entries are ordered by name.
    pub fn dir_entry_prefix(&self, dir_id: InodeId) -> (key: Vec<u8>)
        ensures
            key@ == full_key(self@, KeyPrefix::DirEntry, be64(dir_id)),
    {
        let mut key: Vec<u8> = self.header(KeyPrefix::DirEntry);
        push_be64(&mut key, dir_id);
        assert(key@ =~= full_key(self@, KeyPrefix::DirEntry, be64(dir_id)));
        key
    }

    /// Key of the scan row of `dir_id` at `cookie`.
    pub fn dir_scan_key(&self, dir_id: InodeId, cookie: u64) -> (key: Bytes)
        ensures
            bytes_seq(key) == full_key(self@, KeyPrefix::DirScan, be64(dir_id) + be64(cookie)),
    {
        let mut key: Vec<u8> = self.header(KeyPrefix::DirScan);
        push_be64(&mut key, dir_id);
        push_be64(&mut key, cookie);
        assert(key@ =~= full_key(self@, KeyPrefix::DirScan, be64(dir_id) + be64(cookie)));
        bytes_from_vec(key)
    }

    /// Prefix of every scan row of `dir_id`.
    pub fn dir_scan_prefix(&self, dir_id: InodeId) -> (key: Vec<u8>)
        ensures
            key@ == full_key(self@, KeyPrefix::DirScan, be64(dir_id)),
    {
        let mut key: Vec<u8> = self.header(KeyPrefix::DirScan);
        push_be64(&mut key, dir_id);
        assert(key@ =~= full_key(self@, KeyPrefix::DirScan, be64(dir_id)));
        key
    }

    /// Key from which a directory scan resumes after a cookie: the scan row of
    /// the next cookie.
    pub fn dir_scan_resume_key(&self, dir_id: InodeId, resume_after_cookie: u64) -> (key: Bytes)
        requires
            resume_after_cookie < u64::MAX,
        ensures
            bytes_seq(key) == full_key(
                self@,
                KeyPrefix::DirScan,
                be64(dir_id) + be64((resume_after_cookie + 1) as u64),
            ),
    {
        self.dir_scan_key(dir_id, resume_after_cookie + 1)
    }

    /// Key of the next-cookie counter of a directory.
    pub fn dir_cookie_counter_key(&self, dir_id: InodeId) -> (key: Bytes)
        ensures
            bytes_seq(key) == full_key(self@, KeyPrefix::DirCookie, be64(dir_id)),
    {
        let mut key: Vec<u8> = self.header(KeyPrefix::DirCookie);
        push_be64(&mut key, dir_id);
        assert(key@ =~= full_key(self@, KeyPrefix::DirCookie, be64(dir_id)));
        bytes_from_vec(key)
    }

    /// Key of a deferred deletion, ordered by time and then inode.
    pub fn tombstone_key(&self, timestamp: u64, inode_id: InodeId) -> (key: Bytes)
        ensures
            bytes_seq(key) == full_key(self@, KeyPrefix::Tombstone, be64(timestamp) + be64(inode_id)),
    {
        let mut key: Vec<u8> = self.header(KeyPrefix::Tombstone);
        push_be64(&mut key, timestamp);
        push_be64(&mut key, inode_id);
        assert(key@ =~= full_key(self@, KeyPrefix::Tombstone, be64(timestamp) + be64(inode_id)));
        bytes_from_vec(key)
    }

    /// Key of an open-unlinked inode that is pending reclaim. The inode alone
    /// keys the row, so that reclaim can delete it by id.
    pub fn orphan_key(&self, inode_id: InodeId) -> (key: Bytes)
        ensures
            bytes_seq(key) == full_key(self@, KeyPrefix::Orphan, be64(inode_id)),
    {
        let mut key: Vec<u8> = self.header(KeyPrefix::Orphan);
        push_be64(&mut key, inode_id);
        assert(key@ =~= full_key(self@, KeyPrefix::Orphan, be64(inode_id)));
        bytes_from_vec(key)
    }

    /// Key of one shard of the volume-wide counters.
    pub fn stats_shard_key(&self, shard_id: usize) -> (key: Bytes)
        ensures
            bytes_seq(key) == full_key(self@, KeyPrefix::Stats, be64(shard_id as u64)),
    {
        let mut key: Vec<u8> = self.header(KeyPrefix::Stats);
        push_be64(&mut key, shard_id as u64);
        assert(key@ =~= full_key(self@, KeyPrefix::Stats, be64(shard_id as u64)));
        bytes_from_vec(key)
    }

    /// Key of the registry entry that names a basin branch of this volume.
    pub fn branch_registry_key(&self, name: &str) -> (key: Bytes)
        ensures
            bytes_seq(key) == full_key(self@, KeyPrefix::Branch, encode_utf8(name@)),
    {
        let mut key: Vec<u8> = self.header(KeyPrefix::Branch);
        push_all(&mut key, name.as_bytes());
        assert(key@ =~= full_key(self@, KeyPrefix::Branch, encode_utf8(name@)));
        bytes_from_vec(key)
    }

    /// Prefix of every branch-registry entry.
    pub fn branch_registry_prefix(&self) -> (key: Bytes)
        ensures
            bytes_seq(key) == key_header(self@, KeyPrefix::Branch),
    {
        let key: Vec<u8> = self.header(KeyPrefix::Branch);
        bytes_from_vec(key)
    }

    /// Key of the next-inode counter.
    pub fn system_counter_key(&self) -> (key: Bytes)
        ensures
            bytes_seq(key) == system_row(1),
    {
        system_key(1)
    }

    /// Key of the replication provenance stamp that is flushed with each
    /// replicated batch.
    pub fn ha_seqno_key(&self) -> (key: Bytes)
        ensures
            bytes_seq(key) == system_row(2),
    {
        system_key(2)
    }

    /// Key of the durability lineage token.
    pub fn lineage_key(&self) -> (key: Bytes)
        ensures
            bytes_seq(key) == system_row(3),
    {
        system_key(3)
    }

    /// Key of the Solo taint: the lineage token that went Solo.
    pub fn taint_key(&self) -> (key: Bytes)
        ensures
            bytes_seq(key) == system_row(4),
    {
        system_key(4)
    }

    /// Key of the time of the last completed orphan sweep.
    pub fn last_orphan_sweep_key(&self) -> (key: Bytes)
        ensures
            bytes_seq(key) == system_row(5),
    {
        system_key(5)
    }

    /// Key of the branch-id allocator: the highest branch id handed out.
    pub fn branch_counter_key(&self) -> (key: Bytes)
        ensures
            bytes_seq(key) == system_row(6),
    {
        system_key(6)
    }

    /// The two numbers of a key of `kind` that holds two of them after a header
    /// of `id_off` bytes.
    fn parse_two_ids(key: &[u8], kind: KeyPrefix, id_off: usize) -> (ids: Option<(u64, u64)>)
        requires
            kind_domain(kind).len() + 1 <= id_off <= 11,
        ensures
            ids == two_ids(key@, kind, id_off as int),
    {
        let mut start: Vec<u8> = Vec::new();
        kind.push_domain(&mut start);
        start.push(u8::from(kind));
        assert(start@ =~= kind_domain(kind).push(kind_byte(kind)));
        if key.len() != id_off + U64_SIZE * 2 || !has_prefix(key, start.as_slice()) {
            return None;
        }
        Some((read_be64(key, id_off), read_be64(key, id_off + U64_SIZE)))
    }

    /// The extent index of an extent key in this codec's layout. The embedded
    /// branch id is skipped, not validated.
    pub fn parse_extent_key(&self, key: &[u8]) -> (index: Option<u64>)
        ensures
            index == match two_ids(
                key@,
                KeyPrefix::Extent,
                key_header(self@, KeyPrefix::Extent).len() as int,
            ) {
                Some(ids) => Some(ids.1),
                None => None,
            },
    {
        match KeyCodec::parse_two_ids(key, KeyPrefix::Extent, self.id_offset(KeyPrefix::Extent)) {
            Some(ids) => Some(ids.1),
            None => None,
        }
    }

    /// `(inode_id, extent_index)` of an extent key in this codec's layout.
    pub fn parse_extent_key_full(&self, key: &[u8]) -> (ids: Option<(InodeId, u64)>)
        ensures
            ids == two_ids(
                key@,
                KeyPrefix::Extent,
                key_header(self@, KeyPrefix::Extent).len() as int,
            ),
    {
        KeyCodec::parse_two_ids(key, KeyPrefix::Extent, self.id_offset(KeyPrefix::Extent))
    }

    /// `(epoch, counter)` of a segcount key in this codec's layout.
    pub fn parse_segcount_key(&self, key: &[u8]) -> (ids: Option<(u64, u64)>)
        ensures
            ids == two_ids(
                key@,
                KeyPrefix::SegCount,
                key_header(self@, KeyPrefix::SegCount).len() as int,
            ),
    {
        KeyCodec::parse_two_ids(key, KeyPrefix::SegCount, self.id_offset(KeyPrefix::SegCount))
    }

    /// Half-open range of every segcount key under this codec's branch.
    pub fn segcount_prefix_range(&self) -> (range: (Bytes, Bytes))
        ensures
            bytes_seq(range.0) == key_header(self@, KeyPrefix::SegCount),
            bytes_seq(range.1) == range_end(self@, KeyPrefix::SegCount),
    {
        self.prefix_range(KeyPrefix::SegCount)
    }

    /// `(epoch, counter)` of a segcount key in any branch's layout. The length
    /// tells the layouts apart; an embedded branch id is skipped, not
    /// validated.
    pub fn parse_any_segcount_key(key: &[u8]) -> (ids: Option<(u64, u64)>)
        ensures
            ids == match two_ids(key@, KeyPrefix::SegCount, 5) {
                Some(ids) => Some(ids),
                None => two_ids(key@, KeyPrefix::SegCount, 9),
            },
    {
        match KeyCodec::parse_two_ids(key, KeyPrefix::SegCount, 5) {
            Some(ids) => Some(ids),
            None => KeyCodec::parse_two_ids(key, KeyPrefix::SegCount, 9),
        }
    }

    /// Manifest id of a flush-time index key.
    pub fn parse_flush_time_key(&self, key: &[u8]) -> (manifest_id: Option<u64>)
        ensures
            manifest_id == if key@.len() == 13 && starts_with(
                key@,
                key_header(self@, KeyPrefix::FlushTime),
            ) {
                Some(be64_value(key@.subrange(5, 13)))
            } else {
                None
            },
    {
        let start = self.header(KeyPrefix::FlushTime);
        if key.len() != 5 + U64_SIZE || !has_prefix(key, start.as_slice()) {
            return None;
        }
        Some(read_be64(key, 5))
    }

    /// Half-open `[start, end)` range of the keys of `prefix` under this
    /// codec's branch. For a scoped kind under a non-root branch it brackets
    /// this branch's slice of the kind; otherwise it is the whole kind.
    pub fn prefix_range(&self, prefix: KeyPrefix) -> (range: (Bytes, Bytes))
        ensures
            bytes_seq(range.0) == key_header(self@, prefix),
            bytes_seq(range.1) == range_end(self@, prefix),
    {
        let start = self.header(prefix);
        let mut end: Vec<u8> = Vec::new();
        prefix.push_domain(&mut end);
        if self.branch_bytes(prefix) == BRANCH_ID_SIZE && self.branch.0 < u32::MAX {
            end.push(u8::from(prefix));
            push_be32(&mut end, self.branch.0 + 1);
        } else {
            end.push(u8::from(prefix) + 1);
        }
        assert(end@ =~= range_end(self@, prefix));
        (bytes_from_vec(start), bytes_from_vec(end))
    }

    /// Splits a scoped key of this branch into its kind and the suffix after
    /// the branch id. The root has no branch id to split at.
    fn split_scoped_key<'a>(&self, key: &'a [u8]) -> (split: Option<(KeyPrefix, &'a [u8])>)
        ensures
            match split {
                Some((kind, suffix)) => self@ != 0 && is_scoped_key(self@, key@) && key_kind(key@)
                    == Some(kind) && suffix@ == key_suffix(self@, key@),
                None => self@ == 0 || !is_scoped_key(self@, key@),
            },
    {
        if self.branch.is_root() {
            return None;
        }
        let kind = match self.peek_kind(key) {
            Some(kind) => kind,
            None => return None,
        };
        match self.scoped_suffix(key) {
            Some(suffix) => Some((kind, suffix)),
            None => None,
        }
    }

    /// The suffix of a scoped key as this codec sees it, with an embedded
    /// branch id validated. A parent row and a branch row name the same entry
    /// exactly when their suffixes are equal. `None` for unrecognized or
    /// unscoped keys and for another branch's keys.
    pub fn scoped_suffix<'a>(&self, key: &'a [u8]) -> (suffix: Option<&'a [u8]>)
        ensures
            opt_slice(suffix) == scoped_suffix_of(self@, key@),
    {
        let kind = match self.peek_kind(key) {
            Some(kind) => kind,
            None => return None,
        };
        if !kind.is_scoped() {
            return None;
        }
        let start = self.header(kind);
        if !has_prefix(key, start.as_slice()) {
            return None;
        }
        Some(slice_subrange(key, start.len(), key.len()))
    }

    /// Key marking that this branch deleted the parent-visible key `shadowed`,
    /// a scoped key of this branch. `None` if `shadowed` is no such key.
    pub fn branch_tombstone_key(&self, shadowed: &[u8]) -> (key: Option<Bytes>)
        ensures
            opt_seq(key) == tombstone_key_of(self@, shadowed@),
    {
        match self.split_scoped_key(shadowed) {
            Some((kind, suffix)) => Some(self.branch_tombstone_prefix(kind, suffix)),
            None => None,
        }
    }

    /// The value of every branch-tombstone row: a bare version byte.
    pub fn branch_tombstone_value() -> (value: Bytes)
        ensures
            bytes_seq(value) == seq![BRANCH_TOMBSTONE_RECORD_VERSION],
    {
        let mut value: Vec<u8> = Vec::new();
        value.push(BRANCH_TOMBSTONE_RECORD_VERSION);
        assert(value@ =~= seq![BRANCH_TOMBSTONE_RECORD_VERSION]);
        bytes_from_vec(value)
    }

    /// `meta || BRANCH_TOMBSTONE || branch`.
    fn tombstone_start(&self) -> (key: Vec<u8>)
        ensures
            key@ == tombstone_header(self@),
    {
        let mut key: Vec<u8> = Vec::new();
        push_all(&mut key, &META_DOMAIN);
        key.push(PREFIX_BRANCH_TOMBSTONE);
        push_be32(&mut key, self.branch.0);
        assert(key@ =~= tombstone_header(self@));
        key
    }

    /// Prefix of this branch's tombstone rows that shadow keys of `kind` whose
    /// suffix starts with `suffix_prefix`.
    pub fn branch_tombstone_prefix(&self, kind: KeyPrefix, suffix_prefix: &[u8]) -> (key: Bytes)
        ensures
            bytes_seq(key) == tombstone_row(self@, kind, suffix_prefix@),
    {
        let mut key: Vec<u8> = self.tombstone_start();
        key.push(u8::from(kind));
        push_all(&mut key, suffix_prefix);
        bytes_from_vec(key)
    }

    /// A parent-view scan bound as a bound on this branch's tombstone rows: its
    /// bytes from the kind byte on, under the tombstone header. The kind byte
    /// is copied as it is, so a bound at `kind + 1` maps to the end of that
    /// kind's tombstones. `None` on a root codec or for a bound outside both
    /// domains.
    pub fn branch_tombstone_bound(&self, parent_bound: &[u8]) -> (bound: Option<Bytes>)
        ensures
            opt_seq(bound) == tombstone_bound_of(self@, parent_bound@),
    {
        if self.branch.is_root() {
            return None;
        }
        let from_kind = if has_prefix(parent_bound, &META_DOMAIN) {
            slice_subrange(parent_bound, 4, parent_bound.len())
        } else if has_prefix(parent_bound, &EXTENT_DOMAIN) {
            slice_subrange(parent_bound, 6, parent_bound.len())
        } else {
            return None;
        };
        if from_kind.len() == 0 {
            return None;
        }
        let mut key: Vec<u8> = self.tombstone_start();
        push_all(&mut key, from_kind);
        Some(bytes_from_vec(key))
    }

    /// Half-open range of every tombstone row of this branch. `None` on a root
    /// codec, which has no such rows.
    pub fn branch_tombstone_range(&self) -> (range: Option<(Bytes, Bytes)>)
        ensures
            match range {
                Some((start, end)) => self@ != 0 && bytes_seq(start) == tombstone_header(self@)
                    && bytes_seq(end) == tombstone_range_end(self@),
                None => self@ == 0,
            },
    {
        if self.branch.is_root() {
            return None;
        }
        let start = self.tombstone_start();
        let mut end: Vec<u8> = Vec::new();
        push_all(&mut end, &META_DOMAIN);
        if self.branch.0 < u32::MAX {
            end.push(PREFIX_BRANCH_TOMBSTONE);
            push_be32(&mut end, self.branch.0 + 1);
        } else {
            end.push(PREFIX_BRANCH_TOMBSTONE + 1);
        }
        assert(end@ =~= tombstone_range_end(self@));
        Some((bytes_from_vec(start), bytes_from_vec(end)))
    }

    /// The shadowed kind and suffix of a tombstone row of this branch. `None`
    /// for another branch's rows and for malformed keys.
    pub fn parse_branch_tombstone_key<'a>(&self, key: &'a [u8]) -> (row: Option<
        (KeyPrefix, &'a [u8]),
    >)
        ensures
            match row {
                Some((kind, suffix)) => key@ == tombstone_row(self@, kind, suffix@),
                None => forall|kind: KeyPrefix, suffix: Seq<u8>|
                    key@ != #[trigger] tombstone_row(self@, kind, suffix),
            },
    {
        let start = self.tombstone_start();
        proof {
            assert forall|kind: KeyPrefix, suffix: Seq<u8>|
                key@ == #[trigger] tombstone_row(self@, kind, suffix) implies starts_with(
                key@,
                tombstone_header(self@),
            ) && key@.len() > 9 && kind_of_byte(key@[9]) == Some(kind) by {
                assert(key@.subrange(0, 9) =~= tombstone_header(self@));
            }
        }
        if !has_prefix(key, start.as_slice()) || key.len() <= 9 {
            return None;
        }
        match KeyPrefix::try_from(key[9]) {
            Ok(kind) => {
                let suffix = slice_subrange(key, 10, key.len());
                assert(key@ =~= key@.subrange(0, 9).push(key@[9]) + suffix@);
                Some((kind, suffix))
            },
            Err(_) => None,
        }
    }

    /// The branch-layout form of a scoped key in root layout: the same bytes
    /// with this branch's id after the kind byte. `None` on a root codec or for
    /// unrecognized or unscoped keys.
    pub fn adopt_parent_key(&self, parent: &[u8]) -> (key: Option<Bytes>)
        ensures
            opt_seq(key) == adopted_key_of(self@, parent@),
    {
        if self.branch.is_root() {
            return None;
        }
        let kind = match self.peek_kind(parent) {
            Some(kind) => kind,
            None => return None,
        };
        let root = KeyCodec::new();
        match root.scoped_suffix(parent) {
            Some(suffix) => {
                let mut key: Vec<u8> = self.header(kind);
                push_all(&mut key, suffix);
                Some(bytes_from_vec(key))
            },
            None => None,
        }
    }

    /// The root-layout form of a scoped key of this branch: the same bytes
    /// without the branch id. `None` for unrecognized, unscoped, root-branch or
    /// other-branch keys.
    pub fn strip_branch(&self, key: &[u8]) -> (parent: Option<Bytes>)
        ensures
            opt_seq(parent) == parent_key_of(self@, key@),
    {
        match self.split_scoped_key(key) {
            Some((kind, suffix)) => {
                let root = KeyCodec::new();
                let mut parent: Vec<u8> = root.header(kind);
                push_all(&mut parent, suffix);
                Some(bytes_from_vec(parent))
            },
            None => None,
        }
    }
}

/// The volume-level row `meta || SYSTEM || id`.
pub open spec fn system_row(id: u8) -> Seq<u8> {
    META_DOMAIN@.push(PREFIX_SYSTEM).push(id)
}

fn system_key(id: u8) -> (key: Bytes)
    ensures
        bytes_seq(key) == system_row(id),
{
    let mut key: Vec<u8> = Vec::new();
    push_all(&mut key, &META_DOMAIN);
    key.push(PREFIX_SYSTEM);
    key.push(id);
    assert(key@ =~= system_row(id));
    bytes_from_vec(key)
}

} // verus!
