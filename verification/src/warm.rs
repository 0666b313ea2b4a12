//! Which metadata tables to warm as the manifest changes.

use std::collections::HashSet;
use std::hash::Hash;
use vstd::prelude::*;
use vstd::std_specs::hash::obeys_key_model;

verus! {

/// What to load of a table into the block cache.
#[derive(Clone, Copy, Debug, PartialEq, Eq, Structural)]
pub enum WarmTarget {
    Filters,
    Index,
    /// All data blocks.
    Data,
}

/// Every point lookup goes through filters and index, so these are always
/// warmed; data blocks on request.
pub fn warm_targets(warm_data: bool) -> (targets: Vec<WarmTarget>)
    ensures
        targets@ == if warm_data {
            seq![WarmTarget::Filters, WarmTarget::Index, WarmTarget::Data]
        } else {
            seq![WarmTarget::Filters, WarmTarget::Index]
        },
{
    let mut targets: Vec<WarmTarget> = Vec::new();
    targets.push(WarmTarget::Filters);
    targets.push(WarmTarget::Index);
    if warm_data {
        targets.push(WarmTarget::Data);
    }
    assert(targets@ =~= if warm_data {
        seq![WarmTarget::Filters, WarmTarget::Index, WarmTarget::Data]
    } else {
        seq![WarmTarget::Filters, WarmTarget::Index]
    });
    targets
}

/// Tracks which metadata tables have been warmed, so that across manifest
/// changes, which swap tables in and out, each table is warmed exactly once.
pub struct WarmTracker<Id> {
    seen: HashSet<Id>,
    last_manifest_id: u64,
}

/// The tables that count as warmed, and the manifest they were planned from.
#[verifier::reject_recursive_types(Id)]
pub struct WarmState<Id> {
    pub seen: Set<Id>,
    pub last_manifest_id: u64,
}

impl<Id> WarmState<Id> {
    /// The tables that a manifest adds to what is warmed.
    pub open spec fn fresh(self, manifest_id: u64, current: Set<Id>) -> Set<Id> {
        if manifest_id == self.last_manifest_id {
            Set::empty()
        } else {
            current.difference(self.seen)
        }
    }

    /// The state once a manifest was planned.
    pub open spec fn planned(self, manifest_id: u64, current: Set<Id>) -> WarmState<Id> {
        if manifest_id == self.last_manifest_id {
            self
        } else {
            WarmState { seen: current, last_manifest_id: manifest_id }
        }
    }
}

/// A table that was warmed is not warmed again by the next manifest that still
/// has it; one that a manifest dropped is warmed again when it returns.
pub proof fn law_warmed_once_while_live<Id>(
    state: WarmState<Id>,
    id1: u64,
    tables1: Set<Id>,
    id2: u64,
    tables2: Set<Id>,
    table: Id,
)
    requires
        id1 != state.last_manifest_id,
        id2 != id1,
    ensures
        tables1.contains(table) ==> !state.planned(id1, tables1).fresh(id2, tables2).contains(table),
        !tables1.contains(table) && tables2.contains(table) ==> state.planned(id1, tables1).fresh(
            id2,
            tables2,
        ).contains(table),
        tables1.contains(table) && !state.fresh(id1, tables1).contains(table)
            ==> state.seen.contains(table),
{
}

impl<Id> View for WarmTracker<Id> {
    type V = WarmState<Id>;

    closed spec fn view(&self) -> WarmState<Id> {
        WarmState { seen: self.seen@, last_manifest_id: self.last_manifest_id }
    }
}

impl<Id: Eq + Hash + Copy> WarmTracker<Id> {
    pub fn new() -> (tracker: Self)
        ensures
            tracker@.seen == Set::<Id>::empty(),
            tracker@.last_manifest_id == 0,
    {
        WarmTracker { seen: HashSet::new(), last_manifest_id: 0 }
    }

    /// Given a manifest and its live metadata tables, returns the tables not
    /// yet warmed, counts them as warmed, and forgets the ones that are no
    /// longer live. Nothing happens where the manifest did not change.
    pub fn plan(&mut self, manifest_id: u64, current: Vec<Id>) -> (fresh: Vec<Id>)
        requires
            obeys_key_model::<Id>(),
        ensures
            fresh@.no_duplicates(),
            fresh@.to_set() == old(self)@.fresh(manifest_id, current@.to_set()),
            final(self)@ == old(self)@.planned(manifest_id, current@.to_set()),
    {
        let mut fresh: Vec<Id> = Vec::new();
        if manifest_id == self.last_manifest_id {
            assert(fresh@.to_set() =~= Set::empty());
            return fresh;
        }
        let mut live: HashSet<Id> = HashSet::new();
        let mut i: usize = 0;
        while i < current.len()
            invariant
                obeys_key_model::<Id>(),
                i <= current@.len(),
                fresh@.no_duplicates(),
                live@ =~= current@.subrange(0, i as int).to_set(),
                fresh@.to_set() =~= live@.difference(self.seen@),
            decreases current@.len() - i,
        {
            let id = current[i];
            let ghost before = fresh@;
            let newly = live.insert(id);
            if newly && !self.seen.contains(&id) {
                fresh.push(id);
                assert(fresh@.to_set() =~= before.to_set().insert(id)) by {
                    assert forall|x: Id| #[trigger]
                        fresh@.to_set().contains(x) == before.to_set().insert(id).contains(x) by {
                        if before.contains(x) {
                            let k = choose|k: int| 0 <= k < before.len() && before[k] == x;
                            assert(fresh@[k] == x);
                        }
                        assert(fresh@[before.len() as int] == id);
                    }
                }
                assert(!before.to_set().contains(id));
            }
            proof {
                let all = current@.subrange(0, i as int);
                assert(current@.subrange(0, i + 1) =~= all.push(id));
                assert forall|x: Id| #[trigger]
                    all.push(id).to_set().contains(x) == all.to_set().insert(id).contains(x) by {
                    if all.contains(x) {
                        let k = choose|k: int| 0 <= k < all.len() && all[k] == x;
                        assert(all.push(id)[k] == x);
                    }
                    assert(all.push(id)[all.len() as int] == id);
                }
                assert(all.push(id).to_set() =~= all.to_set().insert(id));
            }
            i += 1;
        }
        assert(current@.subrange(0, i as int) =~= current@);
        self.seen = live;
        self.last_manifest_id = manifest_id;
        fresh
    }

    /// [`Self::plan`] for a manifest that may have no metadata segment yet, as
    /// a fresh volume's: then there is nothing to warm and nothing to forget.
    pub fn plan_segment(&mut self, manifest_id: u64, segment: Option<Vec<Id>>) -> (fresh: Vec<Id>)
        requires
            obeys_key_model::<Id>(),
        ensures
            fresh@.no_duplicates(),
            match segment {
                Some(current) => fresh@.to_set() == old(self)@.fresh(manifest_id, current@.to_set())
                    && final(self)@ == old(self)@.planned(manifest_id, current@.to_set()),
                None => fresh@.len() == 0 && final(self)@ == old(self)@,
            },
    {
        match segment {
            Some(current) => self.plan(manifest_id, current),
            None => Vec::new(),
        }
    }
}

/// What is warmed, and what is remembered. A manifest seen last changes nothing;
/// any other has exactly its tables that were not yet remembered warmed, and from
/// then on exactly its own tables are.
pub proof fn law_plan_warms_what_is_new<Id>(
    state: WarmState<Id>,
    manifest_id: u64,
    tables: Set<Id>,
    table: Id,
)
    ensures
        state.fresh(manifest_id, tables).contains(table) <==> manifest_id != state.last_manifest_id
            && tables.contains(table) && !state.seen.contains(table),
        manifest_id == state.last_manifest_id ==> state.planned(manifest_id, tables) == state,
        manifest_id != state.last_manifest_id ==> (state.planned(
            manifest_id,
            tables,
        ).seen.contains(table) <==> tables.contains(table)),
        state.planned(manifest_id, tables).last_manifest_id == manifest_id,
{
}

} // verus!
