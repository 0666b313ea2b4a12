//! Basin-branch registry: branch metadata as rows in the volume's own LSM.
//!
//! Creating a branch bumps the branch-id allocator and writes one registry
//! row, both in one batch. Branch 0, the volume root, is always implicit and
//! unlisted. Deletion is two-phase: the registry row goes first, so that the
//! branch can no longer be served, and then its key ranges are dropped.

use crate::blob::{bytes_as_slice, bytes_seq, opt_seq};
use crate::branch_apply_laws::law_replay_keeps_untouched;
use crate::branch_view::{lemma_replay_one, raw_get, Store};
use crate::encoding::{
    be32, in_range, le64, lemma_le64_round_trip, lemma_prefix_splits, lex_lt, starts_with,
};
use crate::key_codec::{
    full_key, key_header, key_kind, kind_byte, kind_scoped, range_end, system_row, tombstone_header,
    tombstone_range_end, tombstone_row, BranchId, KeyCodec, KeyPrefix,
};
use crate::key_laws::{
    law_full_key_injective, law_full_key_parts, law_keys_sort_by_suffix, law_kind_of_key,
    law_prefix_range_covers, law_prefix_range_one_branch, law_prefix_range_one_kind,
    law_tombstone_range_exact, law_tombstone_range_one_branch,
};
use crate::layout_laws::{law_key_bytes, law_stored_number, law_system_row_bytes};
use crate::record::{
    frame_record, payload_seq, record_bytes, record_payload, unframe_record, RecordError,
};
use crate::text::utf8_text;
use crate::transaction::{op_key, ops_view, replay, Op, TxOp};
use crate::value_codec::u64_of;
use bytes::Bytes;
use vstd::prelude::*;
use vstd::slice::slice_subrange;
use vstd::utf8::{encode_utf8, valid_utf8};

verus! {

/// Persistent record of one basin branch.
#[derive(Debug, Clone, Copy, PartialEq, Eq, Structural)]
pub struct BranchRecord {
    /// The branch's key-space id. Never reused, even after the branch is
    /// deleted.
    pub id: u32,
    /// Wall-clock epoch seconds at creation.
    pub created_at: u64,
}

impl BranchRecord {
    /// The stored form of a record, from its JSON.
    pub fn encode(json: &[u8]) -> (data: Bytes)
        ensures
            bytes_seq(data) == record_bytes(json@),
    {
        frame_record(json)
    }

    /// The JSON of a stored record.
    pub fn decode(data: &[u8]) -> (json: Result<&[u8], RecordError>)
        ensures
            payload_seq(json) == record_payload(data@),
    {
        unframe_record(data)
    }
}

/// The registry row that names a branch.
pub open spec fn registry_row(name: Seq<char>) -> Seq<u8> {
    full_key(0, KeyPrefix::Branch, encode_utf8(name))
}

/// The allocator row.
pub open spec fn counter_row() -> Seq<u8> {
    system_row(6)
}

/// Why a branch was not created.
#[derive(Clone, Copy, Debug, PartialEq, Eq, Structural)]
pub enum CreateBranchError {
    EmptyName,
    AlreadyExists,
    CorruptCounter,
    IdsExhausted,
}

/// The id after the last one handed out, which an absent counter puts at zero.
pub open spec fn next_branch_id(counter: Option<Seq<u8>>) -> Result<u32, CreateBranchError> {
    let last = match counter {
        Some(raw) => u64_of(raw),
        None => Some(0u64),
    };
    match last {
        Some(last) => if last < u32::MAX {
            Ok((last + 1) as u32)
        } else {
            Err(CreateBranchError::IdsExhausted)
        },
        None => Err(CreateBranchError::CorruptCounter),
    }
}

/// The id that creating `name` allocates, or why it does not.
pub open spec fn allocated_id(store: Store, name: Seq<char>) -> Result<u32, CreateBranchError> {
    if name.len() == 0 {
        Err(CreateBranchError::EmptyName)
    } else if store.contains_key(registry_row(name)) {
        Err(CreateBranchError::AlreadyExists)
    } else {
        next_branch_id(raw_get(store, counter_row()))
    }
}

/// A branch creation under way.
pub enum CreateBranch {
    /// Fetch the registry row.
    Registry { registry_key: Bytes },
    /// The name is free: fetch the allocator row.
    Counter { registry_key: Bytes },
    /// The branch gets this id; commit [`created_branch_ops`].
    Allocated { id: u32, registry_key: Bytes },
    Refused { error: CreateBranchError },
}

impl CreateBranch {
    /// The key to fetch next.
    pub open spec fn next_key(self) -> Option<Seq<u8>> {
        match self {
            CreateBranch::Registry { registry_key } => Some(bytes_seq(registry_key)),
            CreateBranch::Counter { .. } => Some(counter_row()),
            _ => None,
        }
    }

    /// The id that the creation allocates, when the fetches that are left are
    /// answered from `store`.
    pub open spec fn outcome(self, store: Store) -> Result<u32, CreateBranchError> {
        match self {
            CreateBranch::Registry { registry_key } => if store.contains_key(
                bytes_seq(registry_key),
            ) {
                Err(CreateBranchError::AlreadyExists)
            } else {
                next_branch_id(raw_get(store, counter_row()))
            },
            CreateBranch::Counter { .. } => next_branch_id(raw_get(store, counter_row())),
            CreateBranch::Allocated { id, .. } => Ok(id),
            CreateBranch::Refused { error } => Err(error),
        }
    }

    /// The registry row that the creation would write.
    pub open spec fn row(self) -> Option<Seq<u8>> {
        match self {
            CreateBranch::Registry { registry_key } => Some(bytes_seq(registry_key)),
            CreateBranch::Counter { registry_key } => Some(bytes_seq(registry_key)),
            CreateBranch::Allocated { registry_key, .. } => Some(bytes_seq(registry_key)),
            CreateBranch::Refused { .. } => None,
        }
    }

    pub fn begin(name: &str) -> (create: Self)
        ensures
            create is Refused <==> name@.len() == 0,
            create.row() is Some ==> create.row() == Some(registry_row(name@)),
            forall|store: Store| #[trigger]
                create.outcome(store) == allocated_id(store, name@),
    {
        if name.is_empty() {
            return CreateBranch::Refused { error: CreateBranchError::EmptyName };
        }
        CreateBranch::Registry { registry_key: KeyCodec::new().branch_registry_key(name) }
    }

    /// The key to fetch next, or `None` once the outcome is known.
    pub fn wanted(&self) -> (key: Option<Bytes>)
        ensures
            match key {
                Some(k) => self.next_key() == Some(bytes_seq(k)),
                None => self.next_key() is None,
            },
    {
        match self {
            CreateBranch::Registry { registry_key } => Some(registry_key.clone()),
            CreateBranch::Counter { .. } => Some(KeyCodec::new().branch_counter_key()),
            _ => None,
        }
    }

    /// Takes what the store holds under the wanted key.
    pub fn answer(self, found: Option<Bytes>) -> (next: Self)
        requires
            self.next_key() is Some,
        ensures
            !(next is Registry),
            next is Counter ==> self is Registry,
            next.row() is Some ==> next.row() == self.row(),
            forall|store: Store|
                raw_get(store, self.next_key()->0) == opt_seq(found)
                    ==> #[trigger] next.outcome(store) == self.outcome(store),
    {
        match self {
            CreateBranch::Registry { registry_key } => {
                if found.is_some() {
                    CreateBranch::Refused { error: CreateBranchError::AlreadyExists }
                } else {
                    CreateBranch::Counter { registry_key }
                }
            },
            CreateBranch::Counter { registry_key } => {
                let last: u64 = match &found {
                    Some(raw) => match KeyCodec::decode_u64(bytes_as_slice(raw)) {
                        Some(last) => last,
                        None => return CreateBranch::Refused {
                            error: CreateBranchError::CorruptCounter,
                        },
                    },
                    None => 0,
                };
                if last < u32::MAX as u64 {
                    CreateBranch::Allocated { id: (last + 1) as u32, registry_key }
                } else {
                    CreateBranch::Refused { error: CreateBranchError::IdsExhausted }
                }
            },
            other => other,
        }
    }
}

/// The batch that creates a branch: the allocator and the registry row.
pub open spec fn creation_ops(id: u32, row: Seq<u8>, json: Seq<u8>) -> Seq<Op> {
    seq![
        Op::Put { key: counter_row(), value: le64(id as u64) },
        Op::Put { key: row, value: record_bytes(json) },
    ]
}

/// The batch for an allocated branch, with the JSON of its record.
pub fn created_branch_ops(id: u32, registry_key: Bytes, json: &[u8]) -> (ops: Vec<TxOp>)
    ensures
        ops_view(ops@) == creation_ops(id, bytes_seq(registry_key), json@),
{
    let mut ops: Vec<TxOp> = Vec::new();
    ops.push(TxOp::Put(KeyCodec::new().branch_counter_key(), KeyCodec::encode_u64(id as u64)));
    ops.push(TxOp::Put(registry_key, BranchRecord::encode(json)));
    assert(ops_view(ops@) =~= creation_ops(id, bytes_seq(registry_key), json@));
    ops
}

/// The batch that unregisters a branch: nothing where no such branch is
/// registered. The branch's keys and tombstones stay.
pub fn delete_branch_ops(name: &str, registered: bool) -> (ops: Vec<TxOp>)
    ensures
        ops_view(ops@) == if registered {
            seq![Op::Delete { key: registry_row(name@) }]
        } else {
            Seq::empty()
        },
{
    let mut ops: Vec<TxOp> = Vec::new();
    if registered {
        ops.push(TxOp::Delete(KeyCodec::new().branch_registry_key(name)));
        assert(ops_view(ops@) =~= seq![Op::Delete { key: registry_row(name@) }]);
    } else {
        assert(ops_view(ops@) =~= Seq::empty());
    }
    ops
}

/// Why a registry row could not be read.
#[derive(Clone, Copy, Debug, PartialEq, Eq, Structural)]
pub enum RegistryRowError {
    /// The name is not valid UTF-8.
    NameNotUtf8,
    Record(RecordError),
}

/// The name and the record's JSON of a row under the registry prefix.
pub fn parse_registry_row<'a>(key: &'a [u8], value: &'a [u8]) -> (row: Result<
    (&'a str, &'a [u8]),
    RegistryRowError,
>)
    requires
        starts_with(key@, key_header(0, KeyPrefix::Branch)),
    ensures
        match row {
            Ok((name, json)) => key@ == registry_row(name@) && record_payload(value@) == Ok::<
                Seq<u8>,
                RecordError,
            >(json@),
            Err(RegistryRowError::NameNotUtf8) => !valid_utf8(
                key@.subrange(5, key@.len() as int),
            ),
            Err(RegistryRowError::Record(e)) => valid_utf8(key@.subrange(5, key@.len() as int))
                && record_payload(value@) == Err::<Seq<u8>, RecordError>(e),
        },
{
    proof {
        lemma_prefix_splits(key@, key_header(0, KeyPrefix::Branch));
    }
    let name = match utf8_text(slice_subrange(key, 5, key.len())) {
        Some(name) => name,
        None => return Err(RegistryRowError::NameNotUtf8),
    };
    match BranchRecord::decode(value) {
        Ok(json) => Ok((name, json)),
        Err(e) => Err(RegistryRowError::Record(e)),
    }
}

/// The rows after a branch was created: it is registered, and the allocator
/// stands at its id.
pub proof fn law_created_branch_is_registered(
    store: Store,
    name: Seq<char>,
    id: u32,
    json: Seq<u8>,
)
    requires
        allocated_id(store, name) == Ok::<u32, CreateBranchError>(id),
    ensures
        id != 0,
        raw_get(replay(store, creation_ops(id, registry_row(name), json)), registry_row(name))
            == Some(record_bytes(json)),
        raw_get(replay(store, creation_ops(id, registry_row(name), json)), counter_row()) == Some(
            le64(id as u64),
        ),
{
    lemma_creation_rows(store, name, id, json);
}

proof fn lemma_creation_rows(store: Store, name: Seq<char>, id: u32, json: Seq<u8>)
    ensures
        replay(store, creation_ops(id, registry_row(name), json)) == store.insert(
            counter_row(),
            le64(id as u64),
        ).insert(registry_row(name), record_bytes(json)),
        registry_row(name) != counter_row(),
{
    let ops = creation_ops(id, registry_row(name), json);
    let first = Op::Put { key: counter_row(), value: le64(id as u64) };
    assert(ops.drop_last() =~= seq![first]);
    lemma_replay_one(store, first);
    assert(ops.last() == (Op::Put { key: registry_row(name), value: record_bytes(json) }));
    law_full_key_parts(0, KeyPrefix::Branch, encode_utf8(name));
    law_kind_of_key(counter_row(), KeyPrefix::System);
    assert(counter_row()[4] == kind_byte(KeyPrefix::System));
    assert(registry_row(name)[4] == kind_byte(KeyPrefix::Branch));
}

/// Branch ids are never reused: whatever becomes of a branch's registry row,
/// the next branch gets the next id.
pub proof fn law_branch_ids_never_reused(
    store: Store,
    name: Seq<char>,
    id: u32,
    json: Seq<u8>,
    unregistered: bool,
    later: Seq<char>,
    later_id: u32,
)
    requires
        allocated_id(store, name) == Ok::<u32, CreateBranchError>(id),
        allocated_id(
            after_creation(store, name, id, json, unregistered),
            later,
        ) == Ok::<u32, CreateBranchError>(later_id),
    ensures
        later_id == id + 1,
{
    lemma_creation_rows(store, name, id, json);
    lemma_le64_round_trip(id as u64);
    let created = replay(store, creation_ops(id, registry_row(name), json));
    let del = Op::Delete { key: registry_row(name) };
    lemma_replay_one(created, del);
}

/// What happens to the rows of a volume.
pub enum RegistryEvent {
    /// A request to create a branch, with the JSON of the record it would get.
    Create { name: Seq<char>, json: Seq<u8> },
    /// A request to unregister a branch.
    Unregister { name: Seq<char> },
    /// A batch that leaves the allocator alone, such as a write of data or the
    /// drop of a branch's ranges.
    Rows { ops: Seq<Op> },
}

/// The rows after an event. What is refused changes nothing.
pub open spec fn after_event(store: Store, event: RegistryEvent) -> Store {
    match event {
        RegistryEvent::Create { name, json } => match allocated_id(store, name) {
            Ok(id) => replay(store, creation_ops(id, registry_row(name), json)),
            Err(_) => store,
        },
        RegistryEvent::Unregister { name } => if store.contains_key(registry_row(name)) {
            replay(store, seq![Op::Delete { key: registry_row(name) }])
        } else {
            store
        },
        RegistryEvent::Rows { ops } => replay(store, ops),
    }
}

/// The rows after events, in order.
pub open spec fn after_events(store: Store, events: Seq<RegistryEvent>) -> Store
    decreases events.len(),
{
    if events.len() == 0 {
        store
    } else {
        after_event(after_events(store, events.drop_last()), events.last())
    }
}

/// The ids that events hand out, in order.
pub open spec fn ids_handed_out(store: Store, events: Seq<RegistryEvent>) -> Seq<u32>
    decreases events.len(),
{
    if events.len() == 0 {
        Seq::empty()
    } else {
        let before = ids_handed_out(store, events.drop_last());
        match events.last() {
            RegistryEvent::Create { name, .. } => match allocated_id(
                after_events(store, events.drop_last()),
                name,
            ) {
                Ok(id) => before.push(id),
                Err(_) => before,
            },
            _ => before,
        }
    }
}

/// No batch of data touches the allocator.
pub open spec fn spare_the_allocator(events: Seq<RegistryEvent>) -> bool {
    forall|i: int|
        0 <= i < events.len() ==> match #[trigger] events[i] {
            RegistryEvent::Rows { ops } => forall|k: int|
                0 <= k < ops.len() ==> op_key(#[trigger] ops[k]) != counter_row(),
            _ => true,
        }
}

/// Where the allocator stands: the last id handed out, zero before the first.
/// `None` where its row is corrupt.
pub open spec fn allocator(store: Store) -> Option<u64> {
    match raw_get(store, counter_row()) {
        Some(raw) => u64_of(raw),
        None => Some(0u64),
    }
}

/// Over any history of creations, unregistrations and other writes, the
/// allocator never goes back and the ids handed out strictly increase, each
/// above where the allocator stood at the start. So no id is ever reused. A
/// corrupt allocator hands out nothing and stays as it is.
pub proof fn law_branch_ids_increase(store: Store, events: Seq<RegistryEvent>)
    requires
        spare_the_allocator(events),
    ensures
        match allocator(store) {
            Some(start) => {
                let ids = ids_handed_out(store, events);
                let end = allocator(after_events(store, events));
                &&& end is Some
                &&& start <= end->0
                &&& forall|i: int| 0 <= i < ids.len() ==> start < #[trigger] ids[i] <= end->0
                &&& forall|i: int, j: int|
                    0 <= i < j < ids.len() ==> #[trigger] ids[i] < #[trigger] ids[j]
            },
            None => ids_handed_out(store, events).len() == 0 && allocator(
                after_events(store, events),
            ) is None,
        },
    decreases events.len(),
{
    if events.len() > 0 {
        let init = events.drop_last();
        assert forall|i: int| 0 <= i < init.len() implies match #[trigger] init[i] {
            RegistryEvent::Rows { ops } => forall|k: int|
                0 <= k < ops.len() ==> op_key(#[trigger] ops[k]) != counter_row(),
            _ => true,
        } by {
            assert(init[i] == events[i]);
        }
        law_branch_ids_increase(store, init);
        let before = after_events(store, init);
        let last = events[events.len() - 1];
        let earlier = ids_handed_out(store, init);
        let ids = ids_handed_out(store, events);
        lemma_allocator_after(before, last);
        assert(after_events(store, events) == after_event(before, last));
        match last {
            RegistryEvent::Create { name, .. } => match allocated_id(before, name) {
                Ok(id) => {
                    assert(ids == earlier.push(id));
                    assert forall|i: int| 0 <= i < ids.len() - 1 implies #[trigger] ids[i]
                        == earlier[i] by {}
                },
                Err(_) => {
                    assert(ids == earlier);
                },
            },
            _ => {
                assert(ids == earlier);
            },
        }
    }
}

/// An event moves the allocator to the id that it hands out, or not at all.
proof fn lemma_allocator_after(store: Store, event: RegistryEvent)
    requires
        match event {
            RegistryEvent::Rows { ops } => forall|k: int|
                0 <= k < ops.len() ==> op_key(#[trigger] ops[k]) != counter_row(),
            _ => true,
        },
    ensures
        match event {
            RegistryEvent::Create { name, .. } => match allocated_id(store, name) {
                Ok(id) => allocator(store) is Some && id == allocator(store)->0 + 1 && allocator(
                    after_event(store, event),
                ) == Some(id as u64),
                Err(_) => after_event(store, event) == store,
            },
            _ => allocator(after_event(store, event)) == allocator(store),
        },
{
    match event {
        RegistryEvent::Create { name, json } => match allocated_id(store, name) {
            Ok(id) => {
                lemma_creation_rows(store, name, id, json);
                lemma_le64_round_trip(id as u64);
            },
            Err(_) => {},
        },
        RegistryEvent::Unregister { name } => {
            lemma_registry_row_is_not_the_allocator(name);
            lemma_replay_one(store, Op::Delete { key: registry_row(name) });
        },
        RegistryEvent::Rows { ops } => {
            law_replay_keeps_untouched(store, ops, counter_row());
        },
    }
}

/// The allocator is no registry row.
proof fn lemma_registry_row_is_not_the_allocator(name: Seq<char>)
    ensures
        registry_row(name) != counter_row(),
{
    lemma_creation_rows(Map::empty(), name, 0, Seq::empty());
}

/// The rows after a branch was created, and perhaps unregistered again.
pub open spec fn after_creation(
    store: Store,
    name: Seq<char>,
    id: u32,
    json: Seq<u8>,
    unregistered: bool,
) -> Store {
    let created = replay(store, creation_ops(id, registry_row(name), json));
    if unregistered {
        replay(created, seq![Op::Delete { key: registry_row(name) }])
    } else {
        created
    }
}

/// Different names have different registry rows.
pub proof fn law_registry_rows_distinct(a: Seq<char>, b: Seq<char>)
    requires
        a != b,
    ensures
        registry_row(a) != registry_row(b),
{
    if registry_row(a) == registry_row(b) {
        law_full_key_injective(
            0,
            KeyPrefix::Branch,
            encode_utf8(a),
            KeyPrefix::Branch,
            encode_utf8(b),
        );
        vstd::utf8::encode_utf8_decode_utf8(a);
        vstd::utf8::encode_utf8_decode_utf8(b);
    }
}

/// A scan of the registry lists branches in the byte order of their names.
pub proof fn law_registry_lists_by_name(a: Seq<char>, b: Seq<char>)
    ensures
        lex_lt(registry_row(a), registry_row(b)) <==> lex_lt(encode_utf8(a), encode_utf8(b)),
{
    law_keys_sort_by_suffix(0, KeyPrefix::Branch, encode_utf8(a), encode_utf8(b));
}

/// The scoped kinds, in the order in which their ranges are dropped.
pub open spec fn scoped_kinds() -> Seq<KeyPrefix> {
    seq![
        KeyPrefix::Inode,
        KeyPrefix::DirEntry,
        KeyPrefix::DirCookie,
        KeyPrefix::Tombstone,
        KeyPrefix::Orphan,
        KeyPrefix::SegCount,
        KeyPrefix::Extent,
    ]
}

/// The ranges that hold everything a branch owns: its slice of each scoped
/// kind, and its tombstone rows.
pub open spec fn branch_ranges(id: u32) -> Seq<(Seq<u8>, Seq<u8>)> {
    scoped_kinds().map_values(
        |kind: KeyPrefix| (key_header(id, kind), range_end(id, kind)),
    ).push((tombstone_header(id), tombstone_range_end(id)))
}

/// The contents of a list of ranges.
pub open spec fn ranges_view(ranges: Seq<(Bytes, Bytes)>) -> Seq<(Seq<u8>, Seq<u8>)> {
    ranges.map_values(|r: (Bytes, Bytes)| (bytes_seq(r.0), bytes_seq(r.1)))
}

/// The root branch is the volume itself; its data is not deleted.
#[derive(Clone, Copy, Debug, PartialEq, Eq, Structural)]
pub struct RootBranchRefused;

/// The half-open ranges to drop when a branch's data is deleted.
pub fn delete_branch_data_ranges(id: BranchId) -> (ranges: Result<
    Vec<(Bytes, Bytes)>,
    RootBranchRefused,
>)
    ensures
        match ranges {
            Ok(r) => id.0 != 0 && ranges_view(r@) == branch_ranges(id.0),
            Err(_) => id.0 == 0,
        },
{
    let codec = KeyCodec::for_branch(id);
    let tombstones = match codec.branch_tombstone_range() {
        Some(range) => range,
        None => return Err(RootBranchRefused),
    };
    let mut ranges: Vec<(Bytes, Bytes)> = Vec::new();
    ranges.push(codec.prefix_range(KeyPrefix::Inode));
    ranges.push(codec.prefix_range(KeyPrefix::DirEntry));
    ranges.push(codec.prefix_range(KeyPrefix::DirCookie));
    ranges.push(codec.prefix_range(KeyPrefix::Tombstone));
    ranges.push(codec.prefix_range(KeyPrefix::Orphan));
    ranges.push(codec.prefix_range(KeyPrefix::SegCount));
    ranges.push(codec.prefix_range(KeyPrefix::Extent));
    ranges.push(tombstones);
    assert(ranges_view(ranges@) =~= branch_ranges(id.0));
    Ok(ranges)
}

/// `key` lies in one of the ranges dropped with a branch.
pub open spec fn dropped_with_branch(id: u32, key: Seq<u8>) -> bool {
    exists|i: int|
        0 <= i < branch_ranges(id).len() && in_range(
            key,
            (#[trigger] branch_ranges(id)[i]).0,
            branch_ranges(id)[i].1,
        )
}

/// Deleting a branch's data drops every row the branch wrote: all its scoped
/// keys and all its tombstones.
pub proof fn law_branch_data_dropped(id: u32, kind: KeyPrefix, suffix: Seq<u8>)
    requires
        id != 0,
        kind_scoped(kind),
    ensures
        dropped_with_branch(id, full_key(id, kind, suffix)),
        dropped_with_branch(id, tombstone_row(id, kind, suffix)),
{
    let kinds = scoped_kinds();
    let ranges = branch_ranges(id);
    assert(kinds.contains(kind)) by {
        assert(kinds[0] == KeyPrefix::Inode && kinds[1] == KeyPrefix::DirEntry && kinds[2]
            == KeyPrefix::DirCookie && kinds[3] == KeyPrefix::Tombstone && kinds[4]
            == KeyPrefix::Orphan && kinds[5] == KeyPrefix::SegCount && kinds[6]
            == KeyPrefix::Extent);
    }
    let i = choose|i: int| 0 <= i < kinds.len() && kinds[i] == kind;
    law_prefix_range_covers(id, kind, suffix);
    assert(ranges[i] == (key_header(id, kind), range_end(id, kind)));
    law_tombstone_range_one_branch(id, id, kind, suffix);
    assert(ranges[7] == (tombstone_header(id), tombstone_range_end(id)));
}

/// Deleting a branch's data drops no row of another scope: neither a sibling's
/// scoped keys and tombstones nor a root row with a leading id below 2^32.
/// Every suffix begins with a number of eight bytes.
pub proof fn law_branch_data_only(id: u32, other: u32, kind: KeyPrefix, suffix: Seq<u8>)
    requires
        id != 0,
        other != id,
        kind_scoped(kind),
        suffix.len() >= 8,
        other == 0 ==> starts_with(suffix, be32(0)),
    ensures
        !dropped_with_branch(id, full_key(other, kind, suffix)),
        !dropped_with_branch(id, tombstone_row(other, kind, suffix)),
{
    let ranges = branch_ranges(id);
    let key = full_key(other, kind, suffix);
    let row = tombstone_row(other, kind, suffix);
    law_full_key_parts(other, kind, suffix);
    assert forall|i: int| 0 <= i < ranges.len() implies !in_range(
        key,
        (#[trigger] ranges[i]).0,
        ranges[i].1,
    ) && !in_range(row, ranges[i].0, ranges[i].1) by {
        if i < 7 {
            let k = scoped_kinds()[i];
            assert(ranges[i] == (key_header(id, k), range_end(id, k)));
            lemma_tombstone_row_is_key(other, kind, suffix);
            law_prefix_range_one_kind(
                id,
                k,
                0,
                KeyPrefix::BranchTombstone,
                be32(other).push(kind_byte(kind)) + suffix,
            );
            if k == kind {
                law_prefix_range_one_branch(id, kind, other, suffix);
            } else {
                law_prefix_range_one_kind(id, k, other, kind, suffix);
            }
        } else {
            assert(ranges[i] == (tombstone_header(id), tombstone_range_end(id)));
            law_tombstone_range_one_branch(id, other, kind, suffix);
            law_tombstone_range_exact(id, key);
            if starts_with(key, tombstone_header(id)) {
                lemma_tombstone_header_kind(id, key);
            }
        }
    }
}

/// The deletes of `keys`, in order.
pub open spec fn deletes(keys: Seq<Seq<u8>>) -> Seq<Op> {
    keys.map_values(|key: Seq<u8>| Op::Delete { key })
}

/// `keys` are what scans of a branch's ranges find in `store`: the stored keys
/// that lie in one of them.
pub open spec fn is_branch_rows(store: Store, id: u32, keys: Seq<Seq<u8>>) -> bool {
    forall|key: Seq<u8>| #[trigger]
        keys.contains(key) <==> store.contains_key(key) && dropped_with_branch(id, key)
}

/// Deletes remove the named rows and keep every other.
proof fn lemma_deletes(store: Store, keys: Seq<Seq<u8>>, key: Seq<u8>)
    ensures
        raw_get(replay(store, deletes(keys)), key) == if keys.contains(key) {
            None
        } else {
            raw_get(store, key)
        },
    decreases keys.len(),
{
    let ops = deletes(keys);
    if keys.len() > 0 {
        let init = keys.drop_last();
        lemma_deletes(store, init, key);
        assert(ops.drop_last() =~= deletes(init));
        assert(ops.last() == Op::Delete { key: keys.last() });
        if keys.contains(key) {
            let i = choose|i: int| 0 <= i < keys.len() && keys[i] == key;
            if i < init.len() {
                assert(init[i] == key);
            }
        } else {
            assert(keys[keys.len() - 1] != key);
            if init.contains(key) {
                let i = choose|i: int| 0 <= i < init.len() && init[i] == key;
                assert(keys[i] == key);
            }
        }
    }
}

/// Deleting the rows found in a branch's ranges leaves none there and keeps
/// every other row as it was.
pub proof fn law_branch_drop_clears_ranges(
    store: Store,
    id: u32,
    keys: Seq<Seq<u8>>,
    key: Seq<u8>,
)
    requires
        is_branch_rows(store, id, keys),
    ensures
        raw_get(replay(store, deletes(keys)), key) == if dropped_with_branch(id, key) {
            None
        } else {
            raw_get(store, key)
        },
{
    lemma_deletes(store, keys, key);
}

/// Dropping a branch's data is idempotent: a second drop finds no row, so it
/// counts none.
pub proof fn law_second_drop_finds_nothing(
    store: Store,
    id: u32,
    keys: Seq<Seq<u8>>,
    again: Seq<Seq<u8>>,
)
    requires
        is_branch_rows(store, id, keys),
        is_branch_rows(replay(store, deletes(keys)), id, again),
    ensures
        again.len() == 0,
        replay(replay(store, deletes(keys)), deletes(again)) == replay(store, deletes(keys)),
{
    if again.len() > 0 {
        assert(again.contains(again[0]));
        law_branch_drop_clears_ranges(store, id, keys, again[0]);
    }
}

/// A tombstone row is a key of its unscoped kind.
proof fn lemma_tombstone_row_is_key(id: u32, kind: KeyPrefix, suffix: Seq<u8>)
    ensures
        tombstone_row(id, kind, suffix) == full_key(
            0,
            KeyPrefix::BranchTombstone,
            be32(id).push(kind_byte(kind)) + suffix,
        ),
{
    assert(tombstone_row(id, kind, suffix) =~= full_key(
        0,
        KeyPrefix::BranchTombstone,
        be32(id).push(kind_byte(kind)) + suffix,
    ));
}

/// What begins with a tombstone header is of the tombstone kind.
proof fn lemma_tombstone_header_kind(id: u32, key: Seq<u8>)
    requires
        starts_with(key, tombstone_header(id)),
    ensures
        key_kind(key) == Some(KeyPrefix::BranchTombstone),
{
    lemma_prefix_splits(key, tombstone_header(id));
    let rest = key.subrange(9, key.len() as int);
    assert(key =~= full_key(0, KeyPrefix::BranchTombstone, be32(id) + rest));
    law_full_key_parts(0, KeyPrefix::BranchTombstone, be32(id) + rest);
}

/// Keys per committed batch while a range is dropped. Bounds one batch's
/// memory, not the total work.
pub const DELETE_BATCH_KEYS: usize = 4096;

/// The drop of ranges, row by row, in batches.
pub struct RangeDrop {
    batch: Vec<Bytes>,
    deleted: u64,
}

impl RangeDrop {
    /// Keys staged and not committed yet.
    pub closed spec fn staged(self) -> Seq<Seq<u8>> {
        self.batch@.map_values(|b: Bytes| bytes_seq(b))
    }

    /// Rows taken so far.
    pub closed spec fn count(self) -> u64 {
        self.deleted
    }

    /// A full batch is never held back.
    pub open spec fn wf(self) -> bool {
        self.staged().len() < DELETE_BATCH_KEYS
    }

    pub fn new() -> (drop: Self)
        ensures
            drop.wf(),
            drop.staged() == Seq::<Seq<u8>>::empty(),
            drop.count() == 0,
    {
        let drop = RangeDrop { batch: Vec::new(), deleted: 0 };
        assert(drop.staged() =~= Seq::empty());
        drop
    }

    /// Takes a row to delete. Returns the batch to commit once it is full.
    pub fn push(&mut self, key: Bytes) -> (full: Option<Vec<Bytes>>)
        requires
            old(self).wf(),
            old(self).count() < u64::MAX,
        ensures
            final(self).wf(),
            final(self).count() == old(self).count() + 1,
            match full {
                Some(batch) => {
                    &&& batch@.map_values(|b: Bytes| bytes_seq(b)) == old(self).staged().push(
                        bytes_seq(key),
                    )
                    &&& batch@.len() == DELETE_BATCH_KEYS
                    &&& final(self).staged() == Seq::<Seq<u8>>::empty()
                },
                None => final(self).staged() == old(self).staged().push(bytes_seq(key)),
            },
    {
        self.batch.push(key);
        self.deleted += 1;
        assert(self.staged() =~= old(self).staged().push(bytes_seq(key)));
        if self.batch.len() == DELETE_BATCH_KEYS {
            let mut full: Vec<Bytes> = Vec::new();
            std::mem::swap(&mut full, &mut self.batch);
            assert(self.staged() =~= Seq::empty());
            Some(full)
        } else {
            None
        }
    }

    /// The range has ended: returns what is left to commit, if anything.
    pub fn finish_range(&mut self) -> (rest: Option<Vec<Bytes>>)
        requires
            old(self).wf(),
        ensures
            final(self).wf(),
            final(self).count() == old(self).count(),
            final(self).staged() == Seq::<Seq<u8>>::empty(),
            match rest {
                Some(batch) => batch@.len() > 0 && batch@.map_values(|b: Bytes| bytes_seq(b))
                    == old(self).staged(),
                None => old(self).staged() == Seq::<Seq<u8>>::empty(),
            },
    {
        if self.batch.len() == 0 {
            assert(self.staged() =~= Seq::empty());
            return None;
        }
        let mut rest: Vec<Bytes> = Vec::new();
        std::mem::swap(&mut rest, &mut self.batch);
        assert(self.staged() =~= Seq::empty());
        Some(rest)
    }

    /// Rows deleted.
    pub fn deleted(&self) -> (count: u64)
        ensures
            count == self.count(),
    {
        self.deleted
    }
}

/// The rows of the registry: the name's bytes follow `meta` and 0x0e, and the
/// allocator is the volume's row number 6.
pub proof fn law_registry_bytes(name: Seq<char>)
    ensures
        registry_row(name) == seq![0x6du8, 0x65u8, 0x74u8, 0x61u8, 0x0eu8] + encode_utf8(name),
        counter_row() == seq![0x6du8, 0x65u8, 0x74u8, 0x61u8, 0x06u8, 0x06u8],
{
    law_key_bytes(0, KeyPrefix::Branch, encode_utf8(name));
    law_system_row_bytes(6);
}

/// The id of a new branch. The first is 1 where nothing was handed out yet, and
/// each later one is one more than the number stored last.
pub proof fn law_new_branch_id(store: Store, name: Seq<char>, last: u32)
    requires
        name.len() > 0,
        !store.contains_key(registry_row(name)),
        last < u32::MAX,
        if last == 0 {
            !store.contains_key(counter_row())
        } else {
            store.contains_key(counter_row()) && store[counter_row()] == le64(last as u64)
        },
    ensures
        match allocated_id(store, name) {
            Ok(id) => id == last + 1,
            Err(_) => false,
        },
{
    lemma_le64_round_trip(last as u64);
}

/// Why a branch is not created, each reason exactly where it holds and none
/// before it does: an empty name, a name that is taken, an allocator that holds
/// no number, and one at its end.
pub proof fn law_refused_branch(store: Store, name: Seq<char>)
    ensures
        ({
            let taken = store.contains_key(registry_row(name));
            let stored = store.contains_key(counter_row());
            let number = stored ==> store[counter_row()].len() == 8;
            let fits = stored ==> exists|last: u64|
                last < u32::MAX && #[trigger] le64(last) == store[counter_row()];
            &&& allocated_id(store, name) == Err::<u32, _>(CreateBranchError::EmptyName)
                <==> name.len() == 0
            &&& allocated_id(store, name) == Err::<u32, _>(CreateBranchError::AlreadyExists)
                <==> name.len() > 0 && taken
            &&& allocated_id(store, name) == Err::<u32, _>(CreateBranchError::CorruptCounter)
                <==> name.len() > 0 && !taken && !number
            &&& allocated_id(store, name) == Err::<u32, _>(CreateBranchError::IdsExhausted)
                <==> name.len() > 0 && !taken && number && !fits
            &&& allocated_id(store, name) is Ok <==> name.len() > 0 && !taken && fits
        }),
{
    if store.contains_key(counter_row()) {
        let raw = store[counter_row()];
        assert forall|last: u64| #[trigger] le64(last) == raw implies u64_of(raw) == Some(last) by {
            law_stored_number(raw, last);
        }
        match u64_of(raw) {
            Some(last) => {
                law_stored_number(raw, last);
                assert(le64(last) == raw);
            },
            None => {},
        }
    }
}

/// Creating a branch writes the allocator and the branch's registry row, and
/// leaves every other row as it was.
pub proof fn law_creation_writes_two_rows(
    store: Store,
    name: Seq<char>,
    id: u32,
    json: Seq<u8>,
    other: Seq<u8>,
)
    ensures
        creation_ops(id, registry_row(name), json).len() == 2,
        other != registry_row(name) && other != counter_row() ==> raw_get(
            replay(store, creation_ops(id, registry_row(name), json)),
            other,
        ) == raw_get(store, other),
{
    lemma_creation_rows(store, name, id, json);
}

/// A branch's ranges: one for each of the seven kinds that differ by branch, each
/// once, and one for its tombstones.
pub proof fn law_ranges_of_a_branch(id: u32, kind: KeyPrefix)
    requires
        id != 0,
    ensures
        branch_ranges(id).len() == 8,
        branch_ranges(id)[7] == (tombstone_header(id), tombstone_range_end(id)),
        kind_scoped(kind) <==> exists|i: int|
            0 <= i < 7 && #[trigger] branch_ranges(id)[i] == (
                key_header(id, kind),
                range_end(id, kind),
            ),
{
    let ranges = branch_ranges(id);
    let kinds = scoped_kinds();
    if kind_scoped(kind) {
        assert(kinds[0] == KeyPrefix::Inode && kinds[1] == KeyPrefix::DirEntry && kinds[2]
            == KeyPrefix::DirCookie && kinds[3] == KeyPrefix::Tombstone && kinds[4]
            == KeyPrefix::Orphan && kinds[5] == KeyPrefix::SegCount && kinds[6]
            == KeyPrefix::Extent);
        assert(kinds.contains(kind));
        let i = choose|i: int| 0 <= i < kinds.len() && kinds[i] == kind;
        assert(ranges[i] == (key_header(id, kind), range_end(id, kind)));
    }
    if exists|i: int|
        0 <= i < 7 && #[trigger] ranges[i] == (key_header(id, kind), range_end(id, kind)) {
        let i = choose|i: int|
            0 <= i < 7 && #[trigger] ranges[i] == (key_header(id, kind), range_end(id, kind));
        let k = kinds[i];
        assert(key_header(id, k) == key_header(id, kind));
        let empty = Seq::<u8>::empty();
        assert(full_key(id, k, empty) =~= full_key(id, kind, empty));
        law_full_key_injective(id, k, empty, kind, empty);
    }
}

/// Full batches hold 4096 keys.
pub proof fn law_batch_size(drop: RangeDrop)
    ensures
        drop.wf() <==> drop.staged().len() < 4096,
        DELETE_BATCH_KEYS == 4096,
{
}

} // verus!
