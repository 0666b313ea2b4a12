//! Replaying a transaction through a branch handle.
//!
//! Puts go as staged. Each delete is decided by what the store holds before
//! the transaction; the store is asked one key at a time.

use crate::blob::bytes_seq;
use crate::branch_view::{
    delete_ops, staged_ops, BranchDelete, Decision, NotABranchKey, Store,
};
use crate::key_codec::BranchId;
use crate::transaction::{ops_view, Op, TxOp};
use bytes::Bytes;
use vstd::prelude::*;

verus! {

/// The operations that one staged operation becomes in the view of `branch`:
/// under the root the operation itself, and so for every put.
pub open spec fn remap(store: Store, branch: u32, op: Op) -> Option<Seq<Op>> {
    match op {
        Op::Put { .. } => Some(seq![op]),
        Op::Delete { key } => if branch == 0 {
            Some(seq![op])
        } else {
            delete_ops(store, branch, key)
        },
    }
}

/// What a handle on `branch` puts into the batch for a transaction: each
/// operation remapped, in order. `None` where a delete is refused.
pub open spec fn branch_batch(store: Store, branch: u32, ops: Seq<Op>) -> Option<Seq<Op>>
    decreases ops.len(),
{
    if ops.len() == 0 {
        Some(Seq::empty())
    } else {
        match (remap(store, branch, ops[0]), branch_batch(store, branch, ops.drop_first())) {
            (Some(first), Some(rest)) => Some(first + rest),
            _ => None,
        }
    }
}

/// Under the root a transaction is applied exactly as staged.
pub proof fn law_root_batch_as_staged(store: Store, ops: Seq<Op>)
    ensures
        branch_batch(store, 0, ops) == Some(ops),
    decreases ops.len(),
{
    if ops.len() == 0 {
        assert(ops =~= Seq::empty());
    } else {
        law_root_batch_as_staged(store, ops.drop_first());
        assert(seq![ops[0]] + ops.drop_first() =~= ops);
    }
}

/// What a replay needs or has.
pub enum ApplyStep {
    /// Tell whether the store holds this key.
    Fetch(Bytes),
    /// The operations for the write batch.
    Done(Vec<TxOp>),
    /// A delete was refused; nothing is to be written.
    Refused(NotABranchKey),
}

/// How far a replay has come.
#[verifier::ext_equal]
pub struct Replay {
    /// The branch it goes through.
    pub branch: u32,
    /// What is settled for the batch.
    pub staged: Seq<Op>,
    /// The delete that is being decided.
    pub deciding: Option<Decision>,
    /// The operations that are not taken up yet.
    pub rest: Seq<Op>,
}

impl Replay {
    /// The batch that the replay yields, when the fetches that are left are
    /// answered from `store`.
    pub open spec fn outcome(self, store: Store) -> Option<Seq<Op>> {
        match (
            match self.deciding {
                Some(delete) => delete.outcome(store),
                None => Some(Seq::empty()),
            },
            branch_batch(store, self.branch, self.rest),
        ) {
            (Some(middle), Some(rest)) => Some(self.staged + middle + rest),
            _ => None,
        }
    }

    /// The key that was asked for last and is not answered yet.
    pub open spec fn fetching(self) -> Option<Seq<u8>> {
        match self.deciding {
            Some(delete) => delete.next_key(),
            None => None,
        }
    }

    /// Fetches that are left at most: two for a delete.
    pub open spec fn fetches_left(self) -> nat {
        2 * self.rest.len() + match self.deciding {
            Some(delete) => delete.fetches_left(),
            None => 0,
        }
    }
}

/// A replay under way.
pub struct BranchApply {
    branch: BranchId,
    ops: Vec<TxOp>,
    next: usize,
    staged: Vec<TxOp>,
    delete: Option<BranchDelete>,
}

impl View for BranchApply {
    type V = Replay;

    closed spec fn view(&self) -> Replay {
        Replay {
            branch: self.branch.0,
            staged: ops_view(self.staged@),
            deciding: match self.delete {
                Some(delete) => Some(delete@),
                None => None,
            },
            rest: ops_view(self.ops@).skip(self.next as int),
        }
    }
}

impl BranchApply {
    pub closed spec fn wf(self) -> bool {
        &&& self.next <= self.ops@.len()
        &&& match self.delete {
            Some(delete) => delete.wf(),
            None => true,
        }
    }

    /// The batch that the replay yields, when the fetches that are left are
    /// answered from `store`.
    pub open spec fn outcome(self, store: Store) -> Option<Seq<Op>> {
        self@.outcome(store)
    }

    /// The key that was asked for last and is not answered yet.
    pub open spec fn fetching(self) -> Option<Seq<u8>> {
        self@.fetching()
    }

    /// Fetches that are left at most.
    pub open spec fn fetches_left(self) -> nat {
        self@.fetches_left()
    }

    /// A replay of `ops` through a handle on `branch`.
    pub fn begin(branch: BranchId, ops: Vec<TxOp>) -> (apply: Self)
        ensures
            apply.wf(),
            apply@ == (Replay {
                branch: branch.0,
                staged: Seq::empty(),
                deciding: None,
                rest: ops_view(ops@),
            }),
            apply.fetching() is None,
            forall|store: Store| #[trigger]
                apply.outcome(store) == branch_batch(store, branch.0, ops_view(ops@)),
    {
        let apply = BranchApply { branch, ops, next: 0, staged: Vec::new(), delete: None };
        proof {
            assert(ops_view(ops@).skip(0) =~= ops_view(ops@));
            assert forall|store: Store| #[trigger]
                apply.outcome(store) == branch_batch(store, branch.0, ops_view(ops@)) by {
                match branch_batch(store, branch.0, ops_view(ops@)) {
                    Some(batch) => {
                        assert(ops_view(Seq::<TxOp>::empty()) + Seq::<Op>::empty() + batch
                            =~= batch);
                    },
                    None => {},
                }
            }
        }
        apply
    }

    /// Answers the fetch: decides the delete under way as far as the answer
    /// does, and touches nothing else.
    pub fn answer(&mut self, present: bool)
        requires
            old(self).wf(),
            old(self).fetching() is Some,
        ensures
            final(self).wf(),
            final(self)@ == (Replay {
                deciding: Some(old(self)@.deciding->0.answered(present)),
                ..old(self)@
            }),
            final(self).fetches_left() < old(self).fetches_left(),
            forall|store: Store|
                store.contains_key(old(self).fetching()->0) == present ==> (#[trigger] final(self)
                    .outcome(store)) == old(self).outcome(store),
    {
        match self.delete.take() {
            Some(delete) => {
                self.delete = Some(delete.answer(present));
            },
            None => {},
        }
    }

    /// Stages what a decided delete comes to.
    fn settle(&mut self, delete: BranchDelete) -> (settled: Result<(), NotABranchKey>)
        requires
            old(self).wf(),
            old(self).delete is None,
            delete.next_key() is None,
        ensures
            final(self).wf(),
            final(self).delete is None,
            final(self).ops@ == old(self).ops@,
            final(self).next == old(self).next,
            final(self).branch == old(self).branch,
            final(self).fetches_left() == old(self).fetches_left(),
            match settled {
                Ok(_) => forall|store: Store| #[trigger]
                    final(self).outcome(store) == (BranchApply {
                        delete: Some(delete),
                        ..*old(self)
                    }).outcome(store),
                Err(_) => forall|store: Store| #[trigger] delete.outcome(store) is None,
            },
    {
        match delete.staged() {
            Ok(staged) => {
                match staged {
                    Some(op) => self.staged.push(op),
                    None => {},
                }
                proof {
                    let before = ops_view(old(self).staged@);
                    assert(ops_view(self.staged@) =~= before + staged_ops(staged));
                    assert forall|store: Store| #[trigger]
                        self.outcome(store) == (BranchApply {
                            delete: Some(delete),
                            ..*old(self)
                        }).outcome(store) by {
                        assert(delete.outcome(store) == Some(staged_ops(staged)));
                        assert(ops_view(self.staged@) + Seq::<Op>::empty() =~= before + staged_ops(
                            staged,
                        ));
                    }
                }
                Ok(())
            },
            Err(refused) => Err(refused),
        }
    }

    /// Takes up the next operation.
    fn take_up(&mut self)
        requires
            old(self).wf(),
            old(self).delete is None,
            old(self).next < old(self).ops@.len(),
        ensures
            final(self).wf(),
            final(self).ops@ == old(self).ops@,
            final(self).next == old(self).next + 1,
            final(self).fetches_left() <= old(self).fetches_left(),
            forall|store: Store| #[trigger]
                final(self).outcome(store) == old(self).outcome(store),
    {
        assert(self.next < self.ops.len());
        match &self.ops[self.next] {
            TxOp::Put(key, value) => {
                self.staged.push(TxOp::Put(key.clone(), value.clone()));
            },
            TxOp::Delete(key) => {
                if self.branch.is_root() {
                    self.staged.push(TxOp::Delete(key.clone()));
                } else {
                    self.delete = Some(BranchDelete::begin(self.branch, key.clone()));
                }
            },
        }
        self.next += 1;
        proof {
            let all = ops_view(self.ops@);
            let op = all[old(self).next as int];
            let rest = all.skip(self.next as int);
            let none = Seq::<Op>::empty();
            let before = ops_view(old(self).staged@);
            assert(all.skip(old(self).next as int).drop_first() =~= rest);
            assert(all.skip(old(self).next as int)[0] == op);
            assert forall|store: Store| #[trigger]
                self.outcome(store) == old(self).outcome(store) by {
                if self.delete is None {
                    assert(ops_view(self.staged@) =~= before + seq![op]);
                    assert(remap(store, self.branch.0, op) == Some(seq![op]));
                } else {
                    assert(self.delete->0.outcome(store) == remap(store, self.branch.0, op));
                }
                match (remap(store, self.branch.0, op), branch_batch(store, self.branch.0, rest)) {
                    (Some(first), Some(others)) => {
                        assert(before + first + none + others =~= before + none + (first + others));
                        assert(before + first + others =~= before + none + (first + others));
                    },
                    _ => {},
                }
            }
        }
    }

    /// Goes on as far as no fetch is needed.
    pub fn step(&mut self) -> (step: ApplyStep)
        requires
            old(self).wf(),
        ensures
            final(self).wf(),
            match step {
                ApplyStep::Fetch(key) => {
                    &&& final(self).fetching() == Some(bytes_seq(key))
                    &&& final(self).fetches_left() <= old(self).fetches_left()
                    &&& forall|store: Store| #[trigger]
                        final(self).outcome(store) == old(self).outcome(store)
                },
                ApplyStep::Done(ops) => forall|store: Store| #[trigger]
                    old(self).outcome(store) == Some(ops_view(ops@)),
                ApplyStep::Refused(_) => forall|store: Store| #[trigger]
                    old(self).outcome(store) is None,
            },
    {
        loop
            invariant
                self.wf(),
                self.fetches_left() <= old(self).fetches_left(),
                forall|store: Store| #[trigger] self.outcome(store) == old(self).outcome(store),
            decreases self.ops@.len() - self.next,
        {
            let ghost head = *self;
            match self.delete.take() {
                Some(delete) => {
                    match delete.wanted() {
                        Some(key) => {
                            self.delete = Some(delete);
                            assert(*self == head);
                            return ApplyStep::Fetch(key);
                        },
                        None => {},
                    }
                    let ghost taken = *self;
                    assert((BranchApply { delete: Some(delete), ..taken }) == head);
                    match self.settle(delete) {
                        Ok(_) => {},
                        Err(refused) => {
                            assert forall|store: Store| #[trigger]
                                old(self).outcome(store) is None by {
                                assert(head.outcome(store) == old(self).outcome(store));
                                assert(delete.outcome(store) is None);
                            }
                            return ApplyStep::Refused(refused);
                        },
                    }
                },
                None => {},
            }
            assert forall|store: Store| #[trigger]
                self.outcome(store) == old(self).outcome(store) by {
                assert(head.outcome(store) == old(self).outcome(store));
            }
            if self.next >= self.ops.len() {
                let mut done: Vec<TxOp> = Vec::new();
                let ghost before = *self;
                std::mem::swap(&mut done, &mut self.staged);
                proof {
                    assert(ops_view(before.ops@).skip(before.next as int) =~= Seq::<Op>::empty());
                    assert forall|store: Store| #[trigger]
                        old(self).outcome(store) == Some(ops_view(done@)) by {
                        assert(before.outcome(store) == old(self).outcome(store));
                        assert(ops_view(done@) + Seq::<Op>::empty() + Seq::<Op>::empty()
                            =~= ops_view(done@));
                    }
                }
                return ApplyStep::Done(done);
            }
            let ghost before = *self;
            self.take_up();
            assert forall|store: Store| #[trigger]
                self.outcome(store) == old(self).outcome(store) by {
                assert(before.outcome(store) == old(self).outcome(store));
            }
        }
    }
}

} // verus!
