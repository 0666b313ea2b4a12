//! A batch of writes under construction.
//!
//! A transaction records its key operations in order, so that several of them
//! can be replayed into one write batch. Beside the operations it carries side
//! channels for whoever commits it: cache invalidations, counter deltas, a
//! guard and a result to publish. A committer drains them first; nothing may
//! be dropped on the way.

use crate::blob::bytes_seq;
use bytes::Bytes;
use vstd::prelude::*;

verus! {

/// A staged key operation.
#[derive(Clone, Debug)]
pub enum TxOp {
    Put(Bytes, Bytes),
    Delete(Bytes),
}

/// An operation over the contents of its buffers.
pub enum Op {
    Put { key: Seq<u8>, value: Seq<u8> },
    Delete { key: Seq<u8> },
}

impl View for TxOp {
    type V = Op;

    open spec fn view(&self) -> Op {
        match self {
            TxOp::Put(key, value) => Op::Put { key: bytes_seq(*key), value: bytes_seq(*value) },
            TxOp::Delete(key) => Op::Delete { key: bytes_seq(*key) },
        }
    }
}

/// The operations of a list.
pub open spec fn ops_view(ops: Seq<TxOp>) -> Seq<Op> {
    ops.map_values(|op: TxOp| op@)
}

/// The rows after one operation.
pub open spec fn apply_op(store: Map<Seq<u8>, Seq<u8>>, op: Op) -> Map<Seq<u8>, Seq<u8>> {
    match op {
        Op::Put { key, value } => store.insert(key, value),
        Op::Delete { key } => store.remove(key),
    }
}

/// The rows after operations in order: the last write to a key wins.
pub open spec fn replay(store: Map<Seq<u8>, Seq<u8>>, ops: Seq<Op>) -> Map<Seq<u8>, Seq<u8>>
    decreases ops.len(),
{
    if ops.len() == 0 {
        store
    } else {
        apply_op(replay(store, ops.drop_last()), ops.last())
    }
}

/// The key that an operation touches.
pub open spec fn op_key(op: Op) -> Seq<u8> {
    match op {
        Op::Put { key, .. } => key,
        Op::Delete { key } => key,
    }
}

/// Replaying two transactions one after the other, or merged into one batch,
/// is the same.
pub proof fn law_replay_merges(store: Map<Seq<u8>, Seq<u8>>, first: Seq<Op>, second: Seq<Op>)
    ensures
        replay(store, first + second) == replay(replay(store, first), second),
    decreases second.len(),
{
    if second.len() == 0 {
        assert(first + second =~= first);
    } else {
        assert((first + second).drop_last() =~= first + second.drop_last());
        law_replay_merges(store, first, second.drop_last());
    }
}

/// A key keeps its row through a replay that does not touch it, and otherwise
/// has what the last operation on it left.
pub proof fn law_last_write_wins(store: Map<Seq<u8>, Seq<u8>>, ops: Seq<Op>, i: int)
    requires
        0 <= i < ops.len(),
        forall|j: int| i < j < ops.len() ==> op_key(#[trigger] ops[j]) != op_key(ops[i]),
    ensures
        match ops[i] {
            Op::Put { key, value } => replay(store, ops).contains_key(key) && replay(store, ops)[key]
                == value,
            Op::Delete { key } => !replay(store, ops).contains_key(key),
        },
    decreases ops.len(),
{
    if i < ops.len() - 1 {
        let init = ops.drop_last();
        assert(init[i] == ops[i]);
        assert forall|j: int| i < j < init.len() implies op_key(#[trigger] init[j]) != op_key(
            init[i],
        ) by {
            assert(init[j] == ops[j]);
        }
        law_last_write_wins(store, init, i);
    }
}

/// Usage-stats adjustment that rides along with a transaction. Deltas commute,
/// so a committer can add them up per shard over a whole batch.
#[derive(Clone, Copy, Debug, PartialEq, Eq, Structural)]
pub struct StatsDelta {
    pub inode_id: u64,
    pub bytes: i64,
    pub inodes: i64,
}

/// Change of the number of segments and of their total and live bytes.
#[derive(Clone, Copy, Debug, PartialEq, Eq, Structural)]
pub struct SegmentFootprintDelta {
    pub segments: i64,
    pub total_bytes: i64,
    pub live_bytes: i64,
}

/// `a + b`, held at the limits of the type.
pub open spec fn saturated(a: i64, b: i64) -> i64 {
    if a + b > i64::MAX {
        i64::MAX
    } else if a + b < i64::MIN {
        i64::MIN
    } else {
        (a + b) as i64
    }
}

fn saturating_sum(a: i64, b: i64) -> (sum: i64)
    ensures
        sum == saturated(a, b),
{
    match a.checked_add(b) {
        Some(sum) => sum,
        None => if a > 0 {
            i64::MAX
        } else {
            i64::MIN
        },
    }
}

impl Default for SegmentFootprintDelta {
    fn default() -> (delta: Self)
        ensures
            delta == (SegmentFootprintDelta { segments: 0, total_bytes: 0, live_bytes: 0 }),
    {
        SegmentFootprintDelta { segments: 0, total_bytes: 0, live_bytes: 0 }
    }
}

impl SegmentFootprintDelta {
    /// The sum of two deltas.
    pub open spec fn plus(self, other: SegmentFootprintDelta) -> SegmentFootprintDelta {
        SegmentFootprintDelta {
            segments: saturated(self.segments, other.segments),
            total_bytes: saturated(self.total_bytes, other.total_bytes),
            live_bytes: saturated(self.live_bytes, other.live_bytes),
        }
    }

    pub fn new(segments: i64, total_bytes: i64, live_bytes: i64) -> (delta: Self)
        ensures
            delta == (SegmentFootprintDelta { segments, total_bytes, live_bytes }),
    {
        SegmentFootprintDelta { segments, total_bytes, live_bytes }
    }

    pub fn merge(&mut self, other: SegmentFootprintDelta)
        ensures
            *final(self) == old(self).plus(other),
    {
        self.segments = saturating_sum(self.segments, other.segments);
        self.total_bytes = saturating_sum(self.total_bytes, other.total_bytes);
        self.live_bytes = saturating_sum(self.live_bytes, other.live_bytes);
    }
}

/// The negative of `x`, with anything over the largest signed number counted
/// as that.
pub open spec fn debit(x: u64) -> i64 {
    if x > i64::MAX {
        (-i64::MAX) as i64
    } else {
        (-x) as i64
    }
}

fn debit_of(x: u64) -> (d: i64)
    ensures
        d == debit(x),
{
    if x > 0x7fff_ffff_ffff_ffff {
        -0x7fff_ffff_ffff_ffff
    } else {
        -(x as i64)
    }
}

/// The result of an operation, published under its id once the transaction
/// applies.
#[derive(Clone, Copy, Debug, PartialEq, Eq, Structural)]
pub struct DedupEntry<O, R> {
    pub op_id: O,
    pub result: R,
}

/// A transaction. `G` guards references that the transaction publishes, `O`
/// and `R` are the id and the result of a deduplicated operation.
pub struct Transaction<G, O, R> {
    ops: Vec<TxOp>,
    inode_cache_invalidations: Vec<u64>,
    directory_entry_cache_invalidations: Vec<(u64, Bytes)>,
    stats_deltas: Vec<StatsDelta>,
    seg_deltas: Vec<(Bytes, (i64, i64))>,
    segcount_delete_delta: SegmentFootprintDelta,
    extent_ref_guard: Option<G>,
    dedup_entry: Option<DedupEntry<O, R>>,
}

/// The contents of a transaction.
#[verifier::reject_recursive_types(G)]
#[verifier::reject_recursive_types(O)]
#[verifier::reject_recursive_types(R)]
pub struct TransactionView<G, O, R> {
    pub ops: Seq<Op>,
    pub inodes: Seq<u64>,
    pub entries: Seq<(u64, Seq<u8>)>,
    pub stats: Seq<StatsDelta>,
    pub segments: Seq<(Seq<u8>, (i64, i64))>,
    pub footprint: SegmentFootprintDelta,
    pub guard: Option<G>,
    pub dedup: Option<DedupEntry<O, R>>,
}

/// The contents of directory-entry invalidations.
pub open spec fn entries_view(entries: Seq<(u64, Bytes)>) -> Seq<(u64, Seq<u8>)> {
    entries.map_values(|e: (u64, Bytes)| (e.0, bytes_seq(e.1)))
}

/// The contents of segment deltas.
pub open spec fn segments_view(deltas: Seq<(Bytes, (i64, i64))>) -> Seq<(Seq<u8>, (i64, i64))> {
    deltas.map_values(|d: (Bytes, (i64, i64))| (bytes_seq(d.0), d.1))
}

/// A side channel of a transaction.
#[derive(Clone, Copy, Debug, PartialEq, Eq, Structural)]
pub enum SideChannel {
    InodeInvalidations,
    EntryInvalidations,
    StatsDeltas,
    SegDeltas,
    FootprintDelta,
    ExtentRefGuard,
    DedupEntry,
}

impl<G, O, R> TransactionView<G, O, R> {
    /// The first side channel that still holds something.
    pub open spec fn undrained(self) -> Option<SideChannel> {
        if self.inodes.len() > 0 {
            Some(SideChannel::InodeInvalidations)
        } else if self.entries.len() > 0 {
            Some(SideChannel::EntryInvalidations)
        } else if self.stats.len() > 0 {
            Some(SideChannel::StatsDeltas)
        } else if self.segments.len() > 0 {
            Some(SideChannel::SegDeltas)
        } else if self.footprint != (SegmentFootprintDelta {
            segments: 0,
            total_bytes: 0,
            live_bytes: 0,
        }) {
            Some(SideChannel::FootprintDelta)
        } else if self.guard is Some {
            Some(SideChannel::ExtentRefGuard)
        } else if self.dedup is Some {
            Some(SideChannel::DedupEntry)
        } else {
            None
        }
    }

    /// Nothing is left in the side channels.
    pub open spec fn drained(self) -> bool {
        self.undrained() is None
    }
}

impl<G, O, R> View for Transaction<G, O, R> {
    type V = TransactionView<G, O, R>;

    closed spec fn view(&self) -> TransactionView<G, O, R> {
        TransactionView {
            ops: ops_view(self.ops@),
            inodes: self.inode_cache_invalidations@,
            entries: entries_view(self.directory_entry_cache_invalidations@),
            stats: self.stats_deltas@,
            segments: segments_view(self.seg_deltas@),
            footprint: self.segcount_delete_delta,
            guard: self.extent_ref_guard,
            dedup: self.dedup_entry,
        }
    }
}

impl<G, O, R> Default for Transaction<G, O, R> {
    fn default() -> (txn: Self)
        ensures
            txn@.ops.len() == 0,
            txn@.drained(),
    {
        Transaction::new()
    }
}

impl<G, O, R> Transaction<G, O, R> {
    pub fn new() -> (txn: Self)
        ensures
            txn@.ops.len() == 0,
            txn@.drained(),
    {
        Transaction {
            ops: Vec::new(),
            inode_cache_invalidations: Vec::new(),
            directory_entry_cache_invalidations: Vec::new(),
            stats_deltas: Vec::new(),
            seg_deltas: Vec::new(),
            segcount_delete_delta: SegmentFootprintDelta::default(),
            extent_ref_guard: None,
            dedup_entry: None,
        }
    }

    pub fn put_bytes(&mut self, key: &Bytes, value: Bytes)
        ensures
            final(self)@ == (TransactionView {
                ops: old(self)@.ops.push(
                    Op::Put { key: bytes_seq(*key), value: bytes_seq(value) },
                ),
                ..old(self)@
            }),
    {
        self.ops.push(TxOp::Put(key.clone(), value));
        assert(self@.ops =~= old(self)@.ops.push(
            Op::Put { key: bytes_seq(*key), value: bytes_seq(value) },
        ));
    }

    pub fn delete_bytes(&mut self, key: &Bytes)
        ensures
            final(self)@ == (TransactionView {
                ops: old(self)@.ops.push(Op::Delete { key: bytes_seq(*key) }),
                ..old(self)@
            }),
    {
        self.ops.push(TxOp::Delete(key.clone()));
        assert(self@.ops =~= old(self)@.ops.push(Op::Delete { key: bytes_seq(*key) }));
    }

    /// Deletes one segment-counter row, and records the matching footprint
    /// debit: one segment and its bytes.
    pub fn delete_segcount(&mut self, key: &Bytes, live: u64, total: u64)
        ensures
            final(self)@ == (TransactionView {
                ops: old(self)@.ops.push(Op::Delete { key: bytes_seq(*key) }),
                footprint: old(self)@.footprint.plus(
                    SegmentFootprintDelta {
                        segments: -1i64,
                        total_bytes: debit(total),
                        live_bytes: debit(live),
                    },
                ),
                ..old(self)@
            }),
    {
        self.delete_bytes(key);
        self.segcount_delete_delta.merge(
            SegmentFootprintDelta::new(-1, debit_of(total), debit_of(live)),
        );
    }

    pub fn invalidate_cached_inode(&mut self, inode_id: u64)
        ensures
            final(self)@ == (TransactionView {
                inodes: old(self)@.inodes.push(inode_id),
                ..old(self)@
            }),
    {
        self.inode_cache_invalidations.push(inode_id);
    }

    pub fn take_inode_cache_invalidations(&mut self) -> (taken: Vec<u64>)
        ensures
            taken@ == old(self)@.inodes,
            final(self)@ == (TransactionView { inodes: Seq::empty(), ..old(self)@ }),
    {
        let mut taken: Vec<u64> = Vec::new();
        std::mem::swap(&mut taken, &mut self.inode_cache_invalidations);
        taken
    }

    pub fn invalidate_cached_directory_entry(&mut self, dir_id: u64, name: Bytes)
        ensures
            final(self)@ == (TransactionView {
                entries: old(self)@.entries.push((dir_id, bytes_seq(name))),
                ..old(self)@
            }),
    {
        self.directory_entry_cache_invalidations.push((dir_id, name));
        assert(self@.entries =~= old(self)@.entries.push((dir_id, bytes_seq(name))));
    }

    pub fn take_directory_entry_cache_invalidations(&mut self) -> (taken: Vec<(u64, Bytes)>)
        ensures
            entries_view(taken@) == old(self)@.entries,
            final(self)@ == (TransactionView { entries: Seq::empty(), ..old(self)@ }),
    {
        let mut taken: Vec<(u64, Bytes)> = Vec::new();
        std::mem::swap(&mut taken, &mut self.directory_entry_cache_invalidations);
        assert(self@.entries =~= Seq::empty());
        taken
    }

    /// Records a usage-stats adjustment. One that changes nothing is dropped,
    /// so callers can pass differences unconditionally.
    pub fn add_stats_delta(&mut self, inode_id: u64, bytes: i64, inodes: i64)
        ensures
            final(self)@ == if bytes != 0 || inodes != 0 {
                TransactionView {
                    stats: old(self)@.stats.push(StatsDelta { inode_id, bytes, inodes }),
                    ..old(self)@
                }
            } else {
                old(self)@
            },
    {
        if bytes != 0 || inodes != 0 {
            self.stats_deltas.push(StatsDelta { inode_id, bytes, inodes });
        }
    }

    pub fn take_stats_deltas(&mut self) -> (taken: Vec<StatsDelta>)
        ensures
            taken@ == old(self)@.stats,
            final(self)@ == (TransactionView { stats: Seq::empty(), ..old(self)@ }),
    {
        let mut taken: Vec<StatsDelta> = Vec::new();
        std::mem::swap(&mut taken, &mut self.stats_deltas);
        taken
    }

    /// Records adjustments of a segment's live and total bytes. One that
    /// changes nothing is dropped.
    pub fn add_seg_delta(&mut self, segcount_key: &Bytes, live_delta: i64, total_delta: i64)
        ensures
            final(self)@ == if live_delta != 0 || total_delta != 0 {
                TransactionView {
                    segments: old(self)@.segments.push(
                        (bytes_seq(*segcount_key), (live_delta, total_delta)),
                    ),
                    ..old(self)@
                }
            } else {
                old(self)@
            },
    {
        if live_delta != 0 || total_delta != 0 {
            self.seg_deltas.push((segcount_key.clone(), (live_delta, total_delta)));
            assert(self@.segments =~= old(self)@.segments.push(
                (bytes_seq(*segcount_key), (live_delta, total_delta)),
            ));
        }
    }

    pub fn take_seg_deltas(&mut self) -> (taken: Vec<(Bytes, (i64, i64))>)
        ensures
            segments_view(taken@) == old(self)@.segments,
            final(self)@ == (TransactionView { segments: Seq::empty(), ..old(self)@ }),
    {
        let mut taken: Vec<(Bytes, (i64, i64))> = Vec::new();
        std::mem::swap(&mut taken, &mut self.seg_deltas);
        assert(self@.segments =~= Seq::empty());
        taken
    }

    pub fn take_segcount_delete_delta(&mut self) -> (taken: SegmentFootprintDelta)
        ensures
            taken == old(self)@.footprint,
            final(self)@ == (TransactionView {
                footprint: SegmentFootprintDelta { segments: 0, total_bytes: 0, live_bytes: 0 },
                ..old(self)@
            }),
    {
        let taken = self.segcount_delete_delta;
        self.segcount_delete_delta = SegmentFootprintDelta::default();
        taken
    }

    pub fn has_extent_ref_guard(&self) -> (held: bool)
        ensures
            held == self@.guard is Some,
    {
        self.extent_ref_guard.is_some()
    }

    /// Holds the guard until the transaction commits. A transaction holds at
    /// most one.
    pub fn hold_extent_ref_guard(&mut self, guard: G)
        requires
            old(self)@.guard is None,
        ensures
            final(self)@ == (TransactionView { guard: Some(guard), ..old(self)@ }),
    {
        self.extent_ref_guard = Some(guard);
    }

    pub fn take_extent_ref_guard(&mut self) -> (taken: Option<G>)
        ensures
            taken == old(self)@.guard,
            final(self)@ == (TransactionView { guard: None, ..old(self)@ }),
    {
        self.extent_ref_guard.take()
    }

    /// Attaches the result to publish after this transaction applies, or
    /// nothing where the operation has no id.
    pub fn set_dedup_result(&mut self, has_op_id: bool, op_id: O, result: R)
        ensures
            final(self)@ == (TransactionView {
                dedup: if has_op_id {
                    Some(DedupEntry { op_id, result })
                } else {
                    None
                },
                ..old(self)@
            }),
    {
        self.dedup_entry = if has_op_id {
            Some(DedupEntry { op_id, result })
        } else {
            None
        };
    }

    pub fn take_dedup_entry(&mut self) -> (taken: Option<DedupEntry<O, R>>)
        ensures
            taken == old(self)@.dedup,
            final(self)@ == (TransactionView { dedup: None, ..old(self)@ }),
    {
        self.dedup_entry.take()
    }

    pub fn is_empty(&self) -> (empty: bool)
        ensures
            empty == (self@.ops.len() == 0),
    {
        self.ops.len() == 0
    }

    /// Number of staged key operations.
    pub fn op_count(&self) -> (count: usize)
        ensures
            count == self@.ops.len(),
    {
        self.ops.len()
    }

    /// The first side channel that a commit would drop.
    pub fn undrained(&self) -> (channel: Option<SideChannel>)
        ensures
            channel == self@.undrained(),
    {
        if self.inode_cache_invalidations.len() > 0 {
            Some(SideChannel::InodeInvalidations)
        } else if self.directory_entry_cache_invalidations.len() > 0 {
            Some(SideChannel::EntryInvalidations)
        } else if self.stats_deltas.len() > 0 {
            Some(SideChannel::StatsDeltas)
        } else if self.seg_deltas.len() > 0 {
            Some(SideChannel::SegDeltas)
        } else if self.segcount_delete_delta != SegmentFootprintDelta::default() {
            Some(SideChannel::FootprintDelta)
        } else if self.extent_ref_guard.is_some() {
            Some(SideChannel::ExtentRefGuard)
        } else if self.dedup_entry.is_some() {
            Some(SideChannel::DedupEntry)
        } else {
            None
        }
    }

    /// The staged operations in order. The side channels must be drained.
    pub fn into_ops(self) -> (ops: Vec<TxOp>)
        requires
            self@.drained(),
        ensures
            ops_view(ops@) == self@.ops,
    {
        self.ops
    }
}

/// Footprint deltas add up field by field. A sum that does not fit is held at the
/// limit that it passed, so no addition ever turns a growth into a loss. The order
/// of two deltas makes no difference, and an empty one changes nothing.
pub proof fn law_footprints_add_up(a: SegmentFootprintDelta, b: SegmentFootprintDelta)
    ensures
        a.segments + b.segments == a.plus(b).segments || (a.segments + b.segments > i64::MAX
            && a.plus(b).segments == i64::MAX) || (a.segments + b.segments < i64::MIN && a.plus(
            b,
        ).segments == i64::MIN),
        a.total_bytes + b.total_bytes == a.plus(b).total_bytes || (a.total_bytes + b.total_bytes
            > i64::MAX && a.plus(b).total_bytes == i64::MAX) || (a.total_bytes + b.total_bytes
            < i64::MIN && a.plus(b).total_bytes == i64::MIN),
        a.live_bytes + b.live_bytes == a.plus(b).live_bytes || (a.live_bytes + b.live_bytes
            > i64::MAX && a.plus(b).live_bytes == i64::MAX) || (a.live_bytes + b.live_bytes
            < i64::MIN && a.plus(b).live_bytes == i64::MIN),
        a.plus(b) == b.plus(a),
        b.segments == 0 && b.total_bytes == 0 && b.live_bytes == 0 ==> a.plus(b) == a,
{
}

/// A debit is the negative of what it takes off, or of the largest signed number
/// where that is less.
pub proof fn law_debit_takes_off(x: u64)
    ensures
        x <= i64::MAX ==> debit(x) + x == 0,
        x > i64::MAX ==> debit(x) + i64::MAX == 0,
{
}

/// Deleting the counter row of a segment takes off what counting it had put on,
/// where the numbers are in the signed range.
pub proof fn law_segment_debit_undoes_credit(
    footprint: SegmentFootprintDelta,
    live: u64,
    total: u64,
)
    requires
        live <= i64::MAX,
        total <= i64::MAX,
        footprint.segments < i64::MAX,
        footprint.total_bytes + total <= i64::MAX,
        footprint.live_bytes + live <= i64::MAX,
    ensures
        footprint.plus(
            SegmentFootprintDelta {
                segments: 1i64,
                total_bytes: total as i64,
                live_bytes: live as i64,
            },
        ).plus(
            SegmentFootprintDelta {
                segments: -1i64,
                total_bytes: debit(total),
                live_bytes: debit(live),
            },
        ) == footprint,
{
}

/// The side channel that is reported as undrained is one that holds something,
/// and every channel before it is empty; none is reported exactly if all seven
/// are empty.
pub proof fn law_first_undrained_channel<G, O, R>(txn: TransactionView<G, O, R>)
    ensures
        ({
            let inodes = txn.inodes.len() == 0;
            let entries = inodes && txn.entries.len() == 0;
            let stats = entries && txn.stats.len() == 0;
            let segments = stats && txn.segments.len() == 0;
            let footprint = segments && txn.footprint.segments == 0 && txn.footprint.total_bytes
                == 0 && txn.footprint.live_bytes == 0;
            let guard = footprint && txn.guard is None;
            match txn.undrained() {
                Some(SideChannel::InodeInvalidations) => !inodes,
                Some(SideChannel::EntryInvalidations) => inodes && !entries,
                Some(SideChannel::StatsDeltas) => entries && !stats,
                Some(SideChannel::SegDeltas) => stats && !segments,
                Some(SideChannel::FootprintDelta) => segments && !footprint,
                Some(SideChannel::ExtentRefGuard) => footprint && !guard,
                Some(SideChannel::DedupEntry) => guard && txn.dedup is Some,
                None => guard && txn.dedup is None,
            }
        }),
        txn.drained() <==> txn.undrained() is None,
{
}

/// A staged operation is taken for what it says.
pub proof fn law_staged_operations(key: Bytes, value: Bytes)
    ensures
        TxOp::Put(key, value)@ == (Op::Put { key: bytes_seq(key), value: bytes_seq(value) }),
        TxOp::Delete(key)@ == (Op::Delete { key: bytes_seq(key) }),
{
}

} // verus!
