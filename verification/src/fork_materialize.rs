//! Building a fork's database.
//!
//! A fork's database is a clone of its parent's at the source checkpoint, with
//! the parent's wrapped key and a lineage record of its own. A creation under
//! the barrier builds it at once, any other leaves a marker from which the
//! fork's first open does. The marker goes last, so that an interrupted first
//! open runs all steps again; each of them can be repeated.

use crate::fork_info::{fork_db_path, ForkInfo, ForkInfoView};
use crate::fork_manager::{home_of, marker_of, parent_of, PendingFork, PendingForkView};
use crate::path::{path_from, path_from_text, path_raw};
use object_store::path::Path;
use vstd::prelude::*;

verus! {

/// A step of building a fork's database.
pub enum MaterializeStep {
    /// Clone the database at `from`, as of the checkpoint, to `to`.
    CloneDatabase { from: Path, checkpoint_id: u128, to: Path },
    /// Copy the wrapped encryption key, which is per db path.
    CopyKey { from: Path, to: Path },
    /// Open the database once and write the lineage record into it.
    SaveLineage { db_path: Path, info: ForkInfo },
    /// Make the lineage record durable.
    Flush { db_path: Path },
    Close { db_path: Path },
    /// Delete the pending marker.
    DeleteMarker { marker: Path },
}

/// The contents of a step.
#[verifier::ext_equal]
pub enum BuildStep {
    CloneDatabase { from: Seq<char>, checkpoint_id: u128, to: Seq<char> },
    CopyKey { from: Seq<char>, to: Seq<char> },
    SaveLineage { db_path: Seq<char>, info: ForkInfoView },
    Flush { db_path: Seq<char> },
    Close { db_path: Seq<char> },
    DeleteMarker { marker: Seq<char> },
}

impl View for MaterializeStep {
    type V = BuildStep;

    open spec fn view(&self) -> BuildStep {
        match *self {
            MaterializeStep::CloneDatabase { from, checkpoint_id, to } => BuildStep::CloneDatabase {
                from: path_raw(from),
                checkpoint_id,
                to: path_raw(to),
            },
            MaterializeStep::CopyKey { from, to } => BuildStep::CopyKey {
                from: path_raw(from),
                to: path_raw(to),
            },
            MaterializeStep::SaveLineage { db_path, info } => BuildStep::SaveLineage {
                db_path: path_raw(db_path),
                info: info@,
            },
            MaterializeStep::Flush { db_path } => BuildStep::Flush { db_path: path_raw(db_path) },
            MaterializeStep::Close { db_path } => BuildStep::Close { db_path: path_raw(db_path) },
            MaterializeStep::DeleteMarker { marker } => BuildStep::DeleteMarker {
                marker: path_raw(marker),
            },
        }
    }
}

/// The contents of a list of steps.
pub open spec fn steps_view(steps: Seq<MaterializeStep>) -> Seq<BuildStep> {
    steps.map_values(|step: MaterializeStep| step@)
}

/// The steps that put a fork's storage at `to`: the parent's database as of
/// the checkpoint, and the parent's key.
pub open spec fn storage_plan(info: ForkInfoView, checkpoint_id: u128, to: Seq<char>) -> Seq<
    BuildStep,
> {
    seq![
        BuildStep::CloneDatabase { from: parent_of(info), checkpoint_id, to },
        BuildStep::CopyKey { from: parent_of(info), to },
    ]
}

/// The steps that build a fork's database under the fork's own path: storage,
/// and then the lineage record, durable before the database is closed.
pub open spec fn database_plan(info: ForkInfoView, checkpoint_id: u128) -> Seq<BuildStep> {
    let home = home_of(info);
    storage_plan(info, checkpoint_id, home) + seq![
        BuildStep::SaveLineage { db_path: home, info },
        BuildStep::Flush { db_path: home },
        BuildStep::Close { db_path: home },
    ]
}

/// The moments of opening a volume at which a pending fork is built.
#[derive(Clone, Copy, Debug, PartialEq, Eq, Structural)]
pub enum OpenPhase {
    /// Before the encryption key is loaded: what the key load needs.
    BeforeKeyLoad,
    /// With the key at hand: everything.
    FirstOpen,
}

/// The steps on opening the volume at `opened`, whose marker is `pending`.
/// Without a marker there is nothing to do.
pub open spec fn open_plan(
    phase: OpenPhase,
    opened: Seq<char>,
    pending: Option<PendingForkView>,
) -> Seq<BuildStep> {
    match pending {
        Some(p) => match phase {
            OpenPhase::BeforeKeyLoad => storage_plan(p.fork_info, p.source_checkpoint_id, opened),
            OpenPhase::FirstOpen => database_plan(p.fork_info, p.source_checkpoint_id).push(
                BuildStep::DeleteMarker { marker: marker_of(opened) },
            ),
        },
        None => Seq::empty(),
    }
}

/// The steps that put a fork's storage at `to`.
fn storage_steps(info: &ForkInfo, checkpoint_id: u128, to: &Path) -> (steps: Vec<MaterializeStep>)
    ensures
        steps_view(steps@) == storage_plan(info@, checkpoint_id, path_raw(*to)),
{
    let parent = path_from(info.parent_db_path.as_str());
    let mut steps: Vec<MaterializeStep> = Vec::new();
    steps.push(
        MaterializeStep::CloneDatabase { from: parent.clone(), checkpoint_id, to: to.clone() },
    );
    steps.push(MaterializeStep::CopyKey { from: parent, to: to.clone() });
    assert(steps_view(steps@) =~= storage_plan(info@, checkpoint_id, path_raw(*to)));
    steps
}

/// The steps that build a fork's database under the fork's own path.
pub fn database_steps(info: &ForkInfo, checkpoint_id: u128) -> (steps: Vec<MaterializeStep>)
    ensures
        steps_view(steps@) == database_plan(info@, checkpoint_id),
{
    let text = ForkInfo::db_path(info.parent_db_path.as_str(), info.name.as_str());
    let home = path_from(text.as_str());
    let mut steps = storage_steps(info, checkpoint_id, &home);
    let ghost storage = steps_view(steps@);
    steps.push(MaterializeStep::SaveLineage { db_path: home.clone(), info: info.copy() });
    steps.push(MaterializeStep::Flush { db_path: home.clone() });
    steps.push(MaterializeStep::Close { db_path: home });
    proof {
        let plan = database_plan(info@, checkpoint_id);
        assert(steps_view(steps@).subrange(0, 2) =~= storage);
        assert(plan.subrange(0, 2) =~= storage);
        assert(steps_view(steps@) =~= plan);
    }
    steps
}

/// The steps on opening the volume at `opened`, whose marker is `pending`.
pub fn materialize_steps(phase: OpenPhase, opened: &Path, pending: Option<&PendingFork>) -> (steps:
    Vec<MaterializeStep>)
    ensures
        steps_view(steps@) == open_plan(
            phase,
            path_raw(*opened),
            match pending {
                Some(p) => Some(p@),
                None => None,
            },
        ),
        steps@.len() > 0 <==> pending is Some,
{
    match pending {
        Some(p) => match phase {
            OpenPhase::BeforeKeyLoad => {
                let steps = storage_steps(&p.fork_info, p.source_checkpoint_id, opened);
                assert(steps_view(steps@).len() == 2);
                steps
            },
            OpenPhase::FirstOpen => {
                let mut steps = database_steps(&p.fork_info, p.source_checkpoint_id);
                let ghost plan = steps_view(steps@);
                let marker = PendingFork::path(opened);
                steps.push(MaterializeStep::DeleteMarker { marker });
                assert(steps_view(steps@) =~= plan.push(
                    BuildStep::DeleteMarker { marker: marker_of(path_raw(*opened)) },
                ));
                steps
            },
        },
        None => {
            let steps: Vec<MaterializeStep> = Vec::new();
            assert(steps_view(steps@) =~= Seq::empty());
            steps
        },
    }
}

/// What the steps work on, by path.
#[verifier::ext_equal]
pub struct ForkStorage {
    /// Wrapped keys, by db path.
    pub keys: Map<Seq<char>, Seq<u8>>,
    /// Cloned databases, by db path: where from, and as of which checkpoint.
    pub clones: Map<Seq<char>, (Seq<char>, u128)>,
    /// Lineage records that are written and not durable yet, by db path.
    pub written: Map<Seq<char>, ForkInfoView>,
    /// Durable lineage records, by db path.
    pub lineage: Map<Seq<char>, ForkInfoView>,
    /// Markers, by their own paths.
    pub markers: Map<Seq<char>, PendingForkView>,
}

impl ForkStorage {
    /// After a step that did not fail.
    pub open spec fn after(self, step: BuildStep) -> ForkStorage {
        match step {
            BuildStep::CloneDatabase { from, checkpoint_id, to } => ForkStorage {
                clones: self.clones.insert(to, (from, checkpoint_id)),
                ..self
            },
            BuildStep::CopyKey { from, to } => if self.keys.contains_key(from) {
                ForkStorage { keys: self.keys.insert(to, self.keys[from]), ..self }
            } else {
                self
            },
            BuildStep::SaveLineage { db_path, info } => ForkStorage {
                written: self.written.insert(db_path, info),
                ..self
            },
            BuildStep::Flush { db_path } => if self.written.contains_key(db_path) {
                ForkStorage {
                    written: self.written.remove(db_path),
                    lineage: self.lineage.insert(db_path, self.written[db_path]),
                    ..self
                }
            } else {
                self
            },
            BuildStep::Close { .. } => self,
            BuildStep::DeleteMarker { marker } => ForkStorage {
                markers: self.markers.remove(marker),
                ..self
            },
        }
    }

    /// After steps, none of which failed.
    pub open spec fn after_all(self, steps: Seq<BuildStep>) -> ForkStorage
        decreases steps.len(),
    {
        if steps.len() == 0 {
            self
        } else {
            self.after_all(steps.drop_last()).after(steps.last())
        }
    }

    /// The marker of the volume at `opened`.
    pub open spec fn pending(self, opened: Seq<char>) -> Option<PendingForkView> {
        if self.markers.contains_key(marker_of(opened)) {
            Some(self.markers[marker_of(opened)])
        } else {
            None
        }
    }

    /// After the volume at `opened` went through a phase of its opening.
    pub open spec fn opened(self, phase: OpenPhase, opened: Seq<char>) -> ForkStorage {
        self.after_all(open_plan(phase, opened, self.pending(opened)))
    }
}

/// One step more.
proof fn lemma_one_more(storage: ForkStorage, steps: Seq<BuildStep>, n: int)
    requires
        0 <= n < steps.len(),
    ensures
        storage.after_all(steps.take(n + 1)) == storage.after_all(steps.take(n)).after(steps[n]),
        storage.after_all(steps.take(0)) == storage,
{
    assert(steps.take(n + 1).drop_last() =~= steps.take(n));
    assert(steps.take(n + 1).last() == steps[n]);
    assert(steps.take(0).len() == 0);
}

/// Where `storage` stands after the first steps of a first open.
spec fn first_open_at(
    storage: ForkStorage,
    opened: Seq<char>,
    pending: PendingForkView,
    n: int,
) -> ForkStorage {
    let info = pending.fork_info;
    let home = home_of(info);
    let parent = parent_of(info);
    ForkStorage {
        clones: if n >= 1 {
            storage.clones.insert(home, (parent, pending.source_checkpoint_id))
        } else {
            storage.clones
        },
        keys: if n >= 2 && storage.keys.contains_key(parent) {
            storage.keys.insert(home, storage.keys[parent])
        } else {
            storage.keys
        },
        written: if n == 3 {
            storage.written.insert(home, info)
        } else if n >= 4 {
            storage.written.remove(home)
        } else {
            storage.written
        },
        lineage: if n >= 4 {
            storage.lineage.insert(home, info)
        } else {
            storage.lineage
        },
        markers: if n >= 6 {
            storage.markers.remove(marker_of(opened))
        } else {
            storage.markers
        },
    }
}

proof fn lemma_first_open_at(
    storage: ForkStorage,
    opened: Seq<char>,
    pending: PendingForkView,
    n: int,
)
    requires
        0 <= n <= 6,
    ensures
        open_plan(OpenPhase::FirstOpen, opened, Some(pending)).len() == 6,
        storage.after_all(open_plan(OpenPhase::FirstOpen, opened, Some(pending)).take(n))
            == first_open_at(storage, opened, pending, n),
    decreases n,
{
    let plan = open_plan(OpenPhase::FirstOpen, opened, Some(pending));
    let info = pending.fork_info;
    let home = home_of(info);
    assert(plan[0] == (BuildStep::CloneDatabase {
        from: parent_of(info),
        checkpoint_id: pending.source_checkpoint_id,
        to: home,
    }));
    assert(plan[1] == (BuildStep::CopyKey { from: parent_of(info), to: home }));
    assert(plan[2] == (BuildStep::SaveLineage { db_path: home, info }));
    assert(plan[3] == (BuildStep::Flush { db_path: home }));
    assert(plan[4] == (BuildStep::Close { db_path: home }));
    assert(plan[5] == (BuildStep::DeleteMarker { marker: marker_of(opened) }));
    if n == 0 {
        lemma_one_more(storage, plan, 0);
        assert(first_open_at(storage, opened, pending, 0) =~= storage);
    } else {
        lemma_first_open_at(storage, opened, pending, n - 1);
        lemma_one_more(storage, plan, n - 1);
        assert(first_open_at(storage, opened, pending, n - 1).after(plan[n - 1])
            =~= first_open_at(storage, opened, pending, n));
    }
}

/// The first open of a pending fork builds it: its database is the parent's as
/// of the source checkpoint, its key is the parent's, its durable lineage record
/// is the marker's, and the marker is gone. Nothing else changes, and opening
/// it again finds nothing to do.
pub proof fn law_first_open_builds_the_fork(
    storage: ForkStorage,
    opened: Seq<char>,
    pending: PendingForkView,
)
    requires
        storage.pending(opened) == Some(pending),
    ensures
        ({
            let info = pending.fork_info;
            let home = home_of(info);
            let parent = parent_of(info);
            let after = storage.opened(OpenPhase::FirstOpen, opened);
            &&& after.clones == storage.clones.insert(home, (parent, pending.source_checkpoint_id))
            &&& after.keys == if storage.keys.contains_key(parent) {
                storage.keys.insert(home, storage.keys[parent])
            } else {
                storage.keys
            }
            &&& after.lineage == storage.lineage.insert(home, info)
            &&& after.written == storage.written.remove(home)
            &&& after.markers == storage.markers.remove(marker_of(opened))
            &&& after.pending(opened) is None
            &&& after.opened(OpenPhase::FirstOpen, opened) == after
        }),
{
    let plan = open_plan(OpenPhase::FirstOpen, opened, Some(pending));
    lemma_first_open_at(storage, opened, pending, 6);
    assert(plan.take(6) =~= plan);
}

/// A creation under the barrier builds the same database, and touches no
/// marker.
pub proof fn law_barrier_creation_builds_the_fork(
    storage: ForkStorage,
    info: ForkInfoView,
    checkpoint_id: u128,
)
    ensures
        ({
            let home = home_of(info);
            let parent = parent_of(info);
            let after = storage.after_all(database_plan(info, checkpoint_id));
            &&& after.clones == storage.clones.insert(home, (parent, checkpoint_id))
            &&& after.keys == if storage.keys.contains_key(parent) {
                storage.keys.insert(home, storage.keys[parent])
            } else {
                storage.keys
            }
            &&& after.lineage == storage.lineage.insert(home, info)
            &&& after.written == storage.written.remove(home)
            &&& after.markers == storage.markers
        }),
{
    let pending = PendingForkView {
        fork_info: info,
        source_checkpoint_id: checkpoint_id,
        source_checkpoint_name: Seq::empty(),
        source_checkpoint_owned: true,
    };
    let plan = open_plan(OpenPhase::FirstOpen, Seq::empty(), Some(pending));
    lemma_first_open_at(storage, Seq::empty(), pending, 5);
    assert(plan.take(5) =~= database_plan(info, checkpoint_id));
}

/// Before the key is loaded, a pending fork gets the parent's database and,
/// byte for byte, the parent's key at the path that is opened. The marker and
/// the lineage records stay as they are, and doing it again changes nothing.
pub proof fn law_storage_precedes_the_key_load(
    storage: ForkStorage,
    opened: Seq<char>,
    pending: PendingForkView,
)
    requires
        storage.pending(opened) == Some(pending),
    ensures
        ({
            let parent = parent_of(pending.fork_info);
            let after = storage.opened(OpenPhase::BeforeKeyLoad, opened);
            &&& after.clones == storage.clones.insert(
                opened,
                (parent, pending.source_checkpoint_id),
            )
            &&& after.keys == if storage.keys.contains_key(parent) {
                storage.keys.insert(opened, storage.keys[parent])
            } else {
                storage.keys
            }
            &&& after.lineage == storage.lineage
            &&& after.written == storage.written
            &&& after.markers == storage.markers
            &&& after.pending(opened) == Some(pending)
            &&& after.opened(OpenPhase::BeforeKeyLoad, opened) == after
        }),
{
    let after = storage.opened(OpenPhase::BeforeKeyLoad, opened);
    lemma_storage_steps(storage, opened, pending);
    lemma_storage_steps(after, opened, pending);
    assert(after.opened(OpenPhase::BeforeKeyLoad, opened) =~= after);
}

proof fn lemma_storage_steps(storage: ForkStorage, opened: Seq<char>, pending: PendingForkView)
    ensures
        ({
            let plan = open_plan(OpenPhase::BeforeKeyLoad, opened, Some(pending));
            storage.after_all(plan) == storage.after(plan[0]).after(plan[1]) && plan.len() == 2
        }),
{
    let plan = open_plan(OpenPhase::BeforeKeyLoad, opened, Some(pending));
    lemma_one_more(storage, plan, 0);
    lemma_one_more(storage, plan, 1);
    assert(plan.take(2) =~= plan);
}

/// A volume without a marker is opened as it is.
pub proof fn law_unmarked_volume_is_untouched(
    storage: ForkStorage,
    phase: OpenPhase,
    opened: Seq<char>,
)
    requires
        storage.pending(opened) is None,
    ensures
        storage.opened(phase, opened) == storage,
{
}

/// A first open that was interrupted after any number of its steps is made up
/// for by the next: the marker is still there, and the outcome is that of one
/// open without interruption.
pub proof fn law_interrupted_open_is_made_up_for(
    storage: ForkStorage,
    opened: Seq<char>,
    pending: PendingForkView,
    done: int,
)
    requires
        storage.pending(opened) == Some(pending),
        0 <= done < open_plan(OpenPhase::FirstOpen, opened, Some(pending)).len(),
    ensures
        ({
            let plan = open_plan(OpenPhase::FirstOpen, opened, Some(pending));
            let interrupted = storage.after_all(plan.take(done));
            &&& interrupted.pending(opened) == Some(pending)
            &&& interrupted.opened(OpenPhase::FirstOpen, opened) == storage.opened(
                OpenPhase::FirstOpen,
                opened,
            )
        }),
{
    let plan = open_plan(OpenPhase::FirstOpen, opened, Some(pending));
    lemma_first_open_at(storage, opened, pending, 6);
    lemma_first_open_at(storage, opened, pending, done);
    let interrupted = storage.after_all(plan.take(done));
    lemma_first_open_at(interrupted, opened, pending, 6);
    assert(plan.take(6) =~= plan);
    assert(first_open_at(interrupted, opened, pending, 6) =~= first_open_at(
        storage,
        opened,
        pending,
        6,
    ));
}

/// The marker that a creation writes for a fork is the one that an open of the
/// fork's own path finds.
pub proof fn law_written_marker_is_found(storage: ForkStorage, pending: PendingForkView)
    ensures
        (ForkStorage {
            markers: storage.markers.insert(marker_of(home_of(pending.fork_info)), pending),
            ..storage
        }).pending(home_of(pending.fork_info)) == Some(pending),
{
}

/// The whole build of a fork, step by step: the parent's database as of the
/// checkpoint and the parent's key go to the fork's path, then the lineage record
/// does, is made durable, and the database is closed. The marker is no part of it.
pub proof fn law_steps_of_a_build(info: ForkInfoView, checkpoint_id: u128)
    ensures
        database_plan(info, checkpoint_id) == seq![
            BuildStep::CloneDatabase { from: parent_of(info), checkpoint_id, to: home_of(info) },
            BuildStep::CopyKey { from: parent_of(info), to: home_of(info) },
            BuildStep::SaveLineage { db_path: home_of(info), info },
            BuildStep::Flush { db_path: home_of(info) },
            BuildStep::Close { db_path: home_of(info) },
        ],
{
    assert(database_plan(info, checkpoint_id) =~= seq![
        BuildStep::CloneDatabase { from: parent_of(info), checkpoint_id, to: home_of(info) },
        BuildStep::CopyKey { from: parent_of(info), to: home_of(info) },
        BuildStep::SaveLineage { db_path: home_of(info), info },
        BuildStep::Flush { db_path: home_of(info) },
        BuildStep::Close { db_path: home_of(info) },
    ]);
}

/// What an open does about a marker: before the key load it clones the database
/// and copies the key to the opened path, and no more; the first open runs the
/// whole build and then deletes the opened volume's marker. Without a marker an
/// open does nothing.
pub proof fn law_steps_of_an_open(opened: Seq<char>, pending: PendingForkView, phase: OpenPhase)
    ensures
        open_plan(OpenPhase::BeforeKeyLoad, opened, Some(pending)) == seq![
            BuildStep::CloneDatabase {
                from: parent_of(pending.fork_info),
                checkpoint_id: pending.source_checkpoint_id,
                to: opened,
            },
            BuildStep::CopyKey { from: parent_of(pending.fork_info), to: opened },
        ],
        open_plan(OpenPhase::FirstOpen, opened, Some(pending)).drop_last() == database_plan(
            pending.fork_info,
            pending.source_checkpoint_id,
        ),
        open_plan(OpenPhase::FirstOpen, opened, Some(pending)).last() == (BuildStep::DeleteMarker {
            marker: marker_of(opened),
        }),
        open_plan(OpenPhase::FirstOpen, opened, Some(pending)).len() == 6,
        open_plan(phase, opened, None).len() == 0,
{
    law_steps_of_a_build(pending.fork_info, pending.source_checkpoint_id);
    assert(open_plan(OpenPhase::FirstOpen, opened, Some(pending)).drop_last() =~= database_plan(
        pending.fork_info,
        pending.source_checkpoint_id,
    ));
}

/// The parent's path and the fork's own path are those that the record's texts
/// stand for.
pub proof fn law_paths_of_a_build(info: ForkInfoView)
    ensures
        parent_of(info) == path_from_text(info.parent_db_path),
        home_of(info) == path_from_text(info.parent_db_path + "/forks/"@ + info.name),
{
    reveal_strlit("/forks/");
    reveal_strlit("/");
    reveal_strlit("forks");
    assert(fork_db_path(info.parent_db_path, info.name) =~= info.parent_db_path + "/forks/"@
        + info.name);
}

/// A step is taken for what it says, on the paths that it names.
pub proof fn law_steps_say_what_they_do(step: MaterializeStep)
    ensures
        match step {
            MaterializeStep::CloneDatabase { from, checkpoint_id, to } => step@ == (
            BuildStep::CloneDatabase { from: path_raw(from), checkpoint_id, to: path_raw(to) }),
            MaterializeStep::CopyKey { from, to } => step@ == (BuildStep::CopyKey {
                from: path_raw(from),
                to: path_raw(to),
            }),
            MaterializeStep::SaveLineage { db_path, info } => step@ == (BuildStep::SaveLineage {
                db_path: path_raw(db_path),
                info: info@,
            }),
            MaterializeStep::Flush { db_path } => step@ == (BuildStep::Flush {
                db_path: path_raw(db_path),
            }),
            MaterializeStep::Close { db_path } => step@ == (BuildStep::Close {
                db_path: path_raw(db_path),
            }),
            MaterializeStep::DeleteMarker { marker } => step@ == (BuildStep::DeleteMarker {
                marker: path_raw(marker),
            }),
        },
{
}

} // verus!
