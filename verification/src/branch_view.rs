//! A branch's view of single keys: point reads and staged deletes.
//!
//! Reads of scoped kinds resolve nearest-writer-wins: the branch's own row,
//! then a branch tombstone (present means deleted in the branch), then the
//! parent's row. A delete of a row that only the parent has becomes a
//! tombstone. The store is asked one key at a time; [`PointRead`] and
//! [`BranchDelete`] say which key to fetch next and take the answer.

use crate::blob::{bytes_as_slice, bytes_seq, opt_seq};
use crate::key_codec::{
    key_kind, kind_scoped, parent_key_of, tombstone_key_of, BranchId, KeyCodec,
    BRANCH_TOMBSTONE_RECORD_VERSION,
};
use crate::transaction::{apply_op, replay, Op, TxOp};
use bytes::Bytes;
use vstd::prelude::*;

verus! {

/// The stored rows.
pub type Store = Map<Seq<u8>, Seq<u8>>;

/// The row stored under exactly `key`.
pub open spec fn raw_get(store: Store, key: Seq<u8>) -> Option<Seq<u8>> {
    if store.contains_key(key) {
        Some(store[key])
    } else {
        None
    }
}

/// What a handle on `branch` reads under `key`.
pub open spec fn view_get(store: Store, branch: u32, key: Seq<u8>) -> Option<Seq<u8>> {
    if store.contains_key(key) {
        Some(store[key])
    } else {
        match (tombstone_key_of(branch, key), parent_key_of(branch, key)) {
            (Some(tombstone), Some(parent)) => if store.contains_key(tombstone) {
                None
            } else {
                raw_get(store, parent)
            },
            _ => None,
        }
    }
}

/// A point read under way.
pub enum PointRead {
    /// Fetch the key as given.
    Own { branch: BranchId, key: Bytes },
    /// The branch never wrote the key: fetch its tombstone.
    Tombstone { tombstone: Bytes, parent: Bytes },
    /// Nor did it delete it: fetch the parent's row.
    Parent { parent: Bytes },
    /// The value read.
    Done { value: Option<Bytes> },
}

impl PointRead {
    /// What the read yields when the fetches that are left are answered from
    /// `store`.
    pub open spec fn outcome(self, store: Store) -> Option<Seq<u8>> {
        match self {
            PointRead::Own { branch, key } => view_get(store, branch.0, bytes_seq(key)),
            PointRead::Tombstone { tombstone, parent } => if store.contains_key(
                bytes_seq(tombstone),
            ) {
                None
            } else {
                raw_get(store, bytes_seq(parent))
            },
            PointRead::Parent { parent } => raw_get(store, bytes_seq(parent)),
            PointRead::Done { value } => opt_seq(value),
        }
    }

    /// The key to fetch next.
    pub open spec fn next_key(self) -> Option<Seq<u8>> {
        match self {
            PointRead::Own { key, .. } => Some(bytes_seq(key)),
            PointRead::Tombstone { tombstone, .. } => Some(bytes_seq(tombstone)),
            PointRead::Parent { parent } => Some(bytes_seq(parent)),
            PointRead::Done { .. } => None,
        }
    }

    /// Fetches that are left at most.
    pub open spec fn fetches_left(self) -> nat {
        match self {
            PointRead::Own { .. } => 3,
            PointRead::Tombstone { .. } => 2,
            PointRead::Parent { .. } => 1,
            PointRead::Done { .. } => 0,
        }
    }

    /// A read of `key` through a handle on `branch`.
    pub fn begin(branch: BranchId, key: Bytes) -> (read: PointRead)
        ensures
            read.next_key() == Some(bytes_seq(key)),
            read.fetches_left() == 3,
            forall|store: Store| #[trigger]
                read.outcome(store) == view_get(store, branch.0, bytes_seq(key)),
    {
        PointRead::Own { branch, key }
    }

    /// The key to fetch next, or `None` once the value is known.
    pub fn wanted(&self) -> (key: Option<Bytes>)
        ensures
            opt_seq(key) == self.next_key(),
            key is None <==> self is Done,
    {
        match self {
            PointRead::Own { key, .. } => Some(key.clone()),
            PointRead::Tombstone { tombstone, .. } => Some(tombstone.clone()),
            PointRead::Parent { parent } => Some(parent.clone()),
            PointRead::Done { .. } => None,
        }
    }

    /// Takes what the store holds under the wanted key.
    pub fn answer(self, found: Option<Bytes>) -> (next: PointRead)
        requires
            !(self is Done),
        ensures
            next.fetches_left() < self.fetches_left(),
            forall|store: Store|
                raw_get(store, self.next_key()->0) == opt_seq(found) ==> #[trigger] next.outcome(
                    store,
                ) == self.outcome(store),
    {
        match self {
            PointRead::Own { branch, key } => {
                if found.is_some() {
                    return PointRead::Done { value: found };
                }
                let codec = KeyCodec::for_branch(branch);
                let k = bytes_as_slice(&key);
                match (codec.branch_tombstone_key(k), codec.strip_branch(k)) {
                    (Some(tombstone), Some(parent)) => PointRead::Tombstone { tombstone, parent },
                    // Root, unscoped, or not a well-formed key of this branch:
                    // there is no parent key to fall back to.
                    _ => PointRead::Done { value: None },
                }
            },
            PointRead::Tombstone { tombstone, parent } => {
                if found.is_some() {
                    PointRead::Done { value: None }
                } else {
                    PointRead::Parent { parent }
                }
            },
            PointRead::Parent { parent } => PointRead::Done { value: found },
            PointRead::Done { value } => PointRead::Done { value },
        }
    }

    /// The value read, once it is known.
    pub fn value(self) -> (value: Option<Bytes>)
        requires
            self is Done,
        ensures
            forall|store: Store| #[trigger] self.outcome(store) == opt_seq(value),
    {
        match self {
            PointRead::Done { value } => value,
            _ => None,
        }
    }
}

/// The key of a branch-scoped delete is not a well-formed key of the branch.
#[derive(Clone, Copy, Debug, PartialEq, Eq, Structural)]
pub struct NotABranchKey;

/// The operations that a delete of `key` through a handle on the non-root
/// `branch` stages, or `None` where the delete is refused: a real delete of a
/// row that the branch has, a tombstone where only the parent has it, and
/// nothing where neither does. Keys of unscoped kinds are deleted as they are.
pub open spec fn delete_ops(store: Store, branch: u32, key: Seq<u8>) -> Option<Seq<Op>> {
    if !is_scoped_kind(key) || store.contains_key(key) {
        Some(seq![Op::Delete { key }])
    } else {
        match (tombstone_key_of(branch, key), parent_key_of(branch, key)) {
            (Some(tombstone), Some(parent)) => if store.contains_key(parent) {
                Some(
                    seq![
                        Op::Put { key: tombstone, value: seq![BRANCH_TOMBSTONE_RECORD_VERSION] },
                    ],
                )
            } else {
                Some(Seq::empty())
            },
            _ => None,
        }
    }
}

/// The rows after a delete of `key` through a handle on the non-root `branch`,
/// or `None` where the delete is refused.
pub open spec fn view_delete(store: Store, branch: u32, key: Seq<u8>) -> Option<Store> {
    match delete_ops(store, branch, key) {
        Some(ops) => Some(replay(store, ops)),
        None => None,
    }
}

/// Replaying a single operation applies it.
pub proof fn lemma_replay_one(store: Store, op: Op)
    ensures
        replay(store, seq![op]) == apply_op(store, op),
        replay(store, Seq::empty()) == store,
{
    assert(seq![op].drop_last() =~= Seq::<Op>::empty());
    assert(replay(store, Seq::<Op>::empty()) == store);
}

/// `key` is of a scoped kind.
pub open spec fn is_scoped_kind(key: Seq<u8>) -> bool {
    match key_kind(key) {
        Some(kind) => kind_scoped(kind),
        None => false,
    }
}

/// At most one operation, as a list.
pub open spec fn staged_ops(staged: Option<TxOp>) -> Seq<Op> {
    match staged {
        Some(op) => seq![op@],
        None => Seq::empty(),
    }
}

/// How far a delete through a branch handle is decided.
#[verifier::ext_equal]
pub enum Decision {
    /// Whether the branch has the row is open.
    Own { branch: u32, key: Seq<u8> },
    /// The branch has no such row; whether the parent has it is open.
    Parent { parent: Seq<u8>, tombstone: Seq<u8> },
    /// The operations to stage.
    Done { ops: Seq<Op> },
    /// The delete is refused.
    Refused,
}

impl Decision {
    /// The operations that the delete stages, when what is open is answered
    /// from `store`.
    pub open spec fn outcome(self, store: Store) -> Option<Seq<Op>> {
        match self {
            Decision::Own { branch, key } => delete_ops(store, branch, key),
            Decision::Parent { parent, tombstone } => Some(
                if store.contains_key(parent) {
                    seq![
                        Op::Put { key: tombstone, value: seq![BRANCH_TOMBSTONE_RECORD_VERSION] },
                    ]
                } else {
                    Seq::empty()
                },
            ),
            Decision::Done { ops } => Some(ops),
            Decision::Refused => None,
        }
    }

    /// The key to fetch next.
    pub open spec fn next_key(self) -> Option<Seq<u8>> {
        match self {
            Decision::Own { key, .. } => Some(key),
            Decision::Parent { parent, .. } => Some(parent),
            _ => None,
        }
    }

    /// Fetches that are left at most.
    pub open spec fn fetches_left(self) -> nat {
        match self {
            Decision::Own { .. } => 2,
            Decision::Parent { .. } => 1,
            _ => 0,
        }
    }

    /// What is decided once it is known whether the key to fetch is stored. A
    /// row of the branch's own is deleted; a row of the parent's alone is
    /// shadowed by a tombstone; a row that neither has needs nothing.
    pub open spec fn answered(self, present: bool) -> Decision {
        match self {
            Decision::Own { branch, key } => if present {
                Decision::Done { ops: seq![Op::Delete { key }] }
            } else {
                match (tombstone_key_of(branch, key), parent_key_of(branch, key)) {
                    (Some(tombstone), Some(parent)) => Decision::Parent { parent, tombstone },
                    _ => Decision::Refused,
                }
            },
            Decision::Parent { tombstone, .. } => Decision::Done {
                ops: if present {
                    seq![
                        Op::Put { key: tombstone, value: seq![BRANCH_TOMBSTONE_RECORD_VERSION] },
                    ]
                } else {
                    Seq::empty()
                },
            },
            decided => decided,
        }
    }
}

/// A delete through a branch handle under way. Every fetch is of the exact
/// stored key: a look-up that fell back to the parent would make each of the
/// parent's rows look like the branch's own.
pub enum BranchDelete {
    /// Fetch the key as given.
    Own { branch: BranchId, key: Bytes },
    /// The branch has no such row: fetch the parent's.
    Parent { parent: Bytes, tombstone: Bytes },
    /// What to stage.
    Done { staged: Option<TxOp> },
    /// The delete is refused.
    Refused,
}

impl View for BranchDelete {
    type V = Decision;

    open spec fn view(&self) -> Decision {
        match *self {
            BranchDelete::Own { branch, key } => Decision::Own {
                branch: branch.0,
                key: bytes_seq(key),
            },
            BranchDelete::Parent { parent, tombstone } => Decision::Parent {
                parent: bytes_seq(parent),
                tombstone: bytes_seq(tombstone),
            },
            BranchDelete::Done { staged } => Decision::Done { ops: staged_ops(staged) },
            BranchDelete::Refused => Decision::Refused,
        }
    }
}

impl BranchDelete {
    /// Only keys of scoped kinds are looked up.
    pub open spec fn wf(self) -> bool {
        match self {
            BranchDelete::Own { key, .. } => is_scoped_kind(bytes_seq(key)),
            _ => true,
        }
    }

    /// The operations that the delete stages, when the fetches that are left
    /// are answered from `store`.
    pub open spec fn outcome(self, store: Store) -> Option<Seq<Op>> {
        self@.outcome(store)
    }

    /// The key to fetch next.
    pub open spec fn next_key(self) -> Option<Seq<u8>> {
        self@.next_key()
    }

    /// Fetches that are left at most.
    pub open spec fn fetches_left(self) -> nat {
        self@.fetches_left()
    }

    /// A delete of `key` through a handle on the non-root `branch`.
    pub fn begin(branch: BranchId, key: Bytes) -> (delete: BranchDelete)
        ensures
            forall|store: Store| #[trigger]
                delete.outcome(store) == delete_ops(store, branch.0, bytes_seq(key)),
            delete.wf(),
            delete is Own <==> is_scoped_kind(bytes_seq(key)),
            delete.fetches_left() <= 2,
    {
        let codec = KeyCodec::for_branch(branch);
        let scoped = match codec.peek_kind(bytes_as_slice(&key)) {
            Some(kind) => kind.is_scoped(),
            None => false,
        };
        if scoped {
            BranchDelete::Own { branch, key }
        } else {
            BranchDelete::Done { staged: Some(TxOp::Delete(key)) }
        }
    }

    /// The key to fetch next, or `None` once the delete is decided.
    pub fn wanted(&self) -> (key: Option<Bytes>)
        ensures
            opt_seq(key) == self.next_key(),
    {
        match self {
            BranchDelete::Own { key, .. } => Some(key.clone()),
            BranchDelete::Parent { parent, .. } => Some(parent.clone()),
            _ => None,
        }
    }

    /// Takes whether the store holds the wanted key.
    pub fn answer(self, present: bool) -> (next: BranchDelete)
        requires
            self.wf(),
            self.next_key() is Some,
        ensures
            next.wf(),
            next@ == self@.answered(present),
            next.fetches_left() < self.fetches_left(),
            forall|store: Store|
                store.contains_key(self.next_key()->0) == present ==> #[trigger] next.outcome(store)
                    == self.outcome(store),
    {
        match self {
            BranchDelete::Own { branch, key } => {
                if present {
                    return BranchDelete::Done { staged: Some(TxOp::Delete(key)) };
                }
                let codec = KeyCodec::for_branch(branch);
                let k = bytes_as_slice(&key);
                let ghost raw = bytes_seq(key);
                match (codec.branch_tombstone_key(k), codec.strip_branch(k)) {
                    (Some(tombstone), Some(parent)) => BranchDelete::Parent { parent, tombstone },
                    _ => {
                        assert(parent_key_of(branch.0, raw) is None);
                        BranchDelete::Refused
                    },
                }
            },
            BranchDelete::Parent { parent, tombstone } => {
                if present {
                    BranchDelete::Done {
                        staged: Some(TxOp::Put(tombstone, KeyCodec::branch_tombstone_value())),
                    }
                } else {
                    BranchDelete::Done { staged: None }
                }
            },
            other => other,
        }
    }

    /// What to stage, once the delete is decided.
    pub fn staged(self) -> (result: Result<Option<TxOp>, NotABranchKey>)
        requires
            self.next_key() is None,
        ensures
            match result {
                Ok(staged) => forall|store: Store| #[trigger]
                    self.outcome(store) == Some(staged_ops(staged)),
                Err(_) => forall|store: Store| #[trigger] self.outcome(store) is None,
            },
    {
        match self {
            BranchDelete::Done { staged } => Ok(staged),
            _ => Err(NotABranchKey),
        }
    }
}

} // verus!
