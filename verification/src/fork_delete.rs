//! Deleting a fork, step by step.
//!
//! A fork that has forks of its own is refused before anything is touched:
//! their clones point at this fork's db path. The registry entry goes last, so
//! that a crash on the way leaves it in place and a repeated delete resumes.

use crate::blob::bytes_seq;
use crate::fork_create::request_error;
use crate::fork_info::{fork_db_path, ForkInfo, FORKS_INFIX};
use crate::fork_manager::{
    children_prefix, fork_registry_row, marker_of, validate_fork_name, ForkError, PendingFork,
};
use crate::key_codec::KeyCodec;
use crate::path::{path_from, path_from_text, path_raw, path_text};
use crate::text::{same_text, trim, trimmed};
use bytes::Bytes;
use object_store::path::Path;
use vstd::prelude::*;

verus! {

/// What is left to do of a delete.
#[derive(Clone, Copy, Debug, PartialEq, Eq, Structural)]
pub enum DeleteStep {
    /// Fetch the row under the registry key.
    Registry,
    /// List the objects under [`DeleteFork::children`], up to one.
    Children,
    /// Read the pending-materialization marker, [`DeleteFork::marker`].
    Marker,
    /// Delete the source checkpoint of a pending fork, which fork creation
    /// made.
    SourceCheckpoint { checkpoint_id: u128 },
    /// Release the pins that the fork holds on the parent. A fork that is
    /// still `pending` has no database to delete.
    ParentPin { pending: bool },
    /// Delete the database at [`DeleteFork::home`].
    Database,
    /// Delete every object that is left under [`DeleteFork::home`].
    Objects,
    /// Delete the row under the registry key.
    Unregister,
    Done,
    Refused(ForkError),
}

impl DeleteStep {
    /// How far the delete has come.
    pub open spec fn stage(self) -> nat {
        match self {
            DeleteStep::Registry => 0,
            DeleteStep::Children => 1,
            DeleteStep::Marker => 2,
            DeleteStep::SourceCheckpoint { .. } => 3,
            DeleteStep::ParentPin { .. } => 4,
            DeleteStep::Database => 5,
            DeleteStep::Objects => 6,
            DeleteStep::Unregister => 7,
            DeleteStep::Done => 8,
            DeleteStep::Refused(_) => 9,
        }
    }

    /// The step deletes something.
    pub open spec fn destroys(self) -> bool {
        self.stage() >= 3 && self.stage() <= 7
    }

    /// The step after this one, given what reading found: whether the fork is
    /// registered, whether it has children, and the source checkpoint of a
    /// pending fork with whether creation owns it.
    pub open spec fn after(
        self,
        registered: bool,
        has_children: bool,
        pending: Option<(u128, bool)>,
    ) -> DeleteStep {
        match self {
            DeleteStep::Registry => if registered {
                DeleteStep::Children
            } else {
                DeleteStep::Refused(ForkError::NotFound)
            },
            DeleteStep::Children => if has_children {
                DeleteStep::Refused(ForkError::HasChildren)
            } else {
                DeleteStep::Marker
            },
            DeleteStep::Marker => match pending {
                Some((checkpoint_id, owned)) => if owned {
                    DeleteStep::SourceCheckpoint { checkpoint_id }
                } else {
                    DeleteStep::ParentPin { pending: true }
                },
                None => DeleteStep::ParentPin { pending: false },
            },
            DeleteStep::SourceCheckpoint { .. } => DeleteStep::ParentPin { pending: true },
            DeleteStep::ParentPin { pending } => if pending {
                DeleteStep::Objects
            } else {
                DeleteStep::Database
            },
            DeleteStep::Database => DeleteStep::Objects,
            DeleteStep::Objects => DeleteStep::Unregister,
            DeleteStep::Unregister => DeleteStep::Done,
            DeleteStep::Done => DeleteStep::Done,
            DeleteStep::Refused(e) => DeleteStep::Refused(e),
        }
    }

    /// The registry was read.
    pub fn registry_read(self, registered: bool) -> (next: Self)
        requires
            self == DeleteStep::Registry,
        ensures
            next == self.after(registered, false, None),
    {
        if registered {
            DeleteStep::Children
        } else {
            DeleteStep::Refused(ForkError::NotFound)
        }
    }

    /// The children were listed.
    pub fn children_listed(self, has_children: bool) -> (next: Self)
        requires
            self == DeleteStep::Children,
        ensures
            next == self.after(true, has_children, None),
    {
        if has_children {
            DeleteStep::Refused(ForkError::HasChildren)
        } else {
            DeleteStep::Marker
        }
    }

    /// The marker was read: the source checkpoint of a pending fork, and
    /// whether creation owns it.
    pub fn marker_read(self, pending: Option<(u128, bool)>) -> (next: Self)
        requires
            self == DeleteStep::Marker,
        ensures
            next == self.after(true, false, pending),
    {
        match pending {
            Some((checkpoint_id, owned)) => if owned {
                DeleteStep::SourceCheckpoint { checkpoint_id }
            } else {
                DeleteStep::ParentPin { pending: true }
            },
            None => DeleteStep::ParentPin { pending: false },
        }
    }

    /// A step that only deletes was done.
    pub fn deleted(self) -> (next: Self)
        requires
            self.destroys(),
        ensures
            next == self.after(true, false, None),
    {
        match self {
            DeleteStep::SourceCheckpoint { .. } => DeleteStep::ParentPin { pending: true },
            DeleteStep::ParentPin { pending } => if pending {
                DeleteStep::Objects
            } else {
                DeleteStep::Database
            },
            DeleteStep::Database => DeleteStep::Objects,
            DeleteStep::Objects => DeleteStep::Unregister,
            _ => DeleteStep::Done,
        }
    }
}

/// The names that a delete works with.
pub struct DeleteFork {
    pub name: String,
    pub registry_key: Bytes,
    pub fork_db_path: String,
}

impl DeleteFork {
    /// The path of the fork's database, under which every object goes.
    pub fn home(&self) -> (path: Path)
        ensures
            path_raw(path) == path_from_text(self.fork_db_path@),
    {
        path_from(self.fork_db_path.as_str())
    }

    /// The path under which the fork's own forks live.
    pub fn children(&self) -> (path: Path)
        ensures
            path_raw(path) == path_from_text(
                path_from_text(self.fork_db_path@) + "/"@ + FORKS_INFIX@,
            ),
    {
        let home = self.home();
        let prefix = children_prefix(path_text(&home));
        path_from(prefix.as_str())
    }

    /// Where the fork's pending marker lives.
    pub fn marker(&self) -> (path: Path)
        ensures
            path_raw(path) == marker_of(path_from_text(self.fork_db_path@)),
    {
        PendingFork::path(&self.home())
    }
}

/// Begins a delete, at [`DeleteStep::Registry`].
pub fn begin_delete(name: &str, read_only: bool, parent_db_path: &str) -> (delete: Result<
    DeleteFork,
    ForkError,
>)
    ensures
        match (request_error(name@, read_only), delete) {
            (Some(e), Err(error)) => error == e,
            (None, Ok(d)) => d.name@ == trimmed(name@) && bytes_seq(d.registry_key)
                == fork_registry_row(trimmed(name@)) && d.fork_db_path@ == fork_db_path(
                parent_db_path@,
                trimmed(name@),
            ),
            _ => false,
        },
{
    let name = trim(name);
    match validate_fork_name(name) {
        Ok(_) => {},
        Err(error) => return Err(error),
    }
    if read_only {
        return Err(ForkError::ReadOnly);
    }
    Ok(
        DeleteFork {
            name: name.to_owned(),
            registry_key: KeyCodec::new().fork_registry_key(name),
            fork_db_path: ForkInfo::db_path(parent_db_path, name),
        },
    )
}

/// The step after `n` steps of a delete.
pub open spec fn delete_step(
    n: nat,
    registered: bool,
    has_children: bool,
    pending: Option<(u128, bool)>,
) -> DeleteStep
    decreases n,
{
    if n == 0 {
        DeleteStep::Registry
    } else {
        delete_step((n - 1) as nat, registered, has_children, pending).after(
            registered,
            has_children,
            pending,
        )
    }
}

/// A fork that is not registered, or that has children, is refused with
/// nothing deleted.
pub proof fn law_refused_delete_touches_nothing(
    n: nat,
    registered: bool,
    has_children: bool,
    pending: Option<(u128, bool)>,
)
    requires
        !registered || has_children,
    ensures
        !delete_step(n, registered, has_children, pending).destroys(),
        n >= 2 ==> delete_step(n, registered, has_children, pending) == DeleteStep::Refused(
            if !registered {
                ForkError::NotFound
            } else {
                ForkError::HasChildren
            },
        ),
    decreases n,
{
    if n > 0 {
        law_refused_delete_touches_nothing((n - 1) as nat, registered, has_children, pending);
        if n == 2 {
            assert(delete_step(0, registered, has_children, pending) == DeleteStep::Registry);
            assert(delete_step(1, registered, has_children, pending) == if registered {
                DeleteStep::Children
            } else {
                DeleteStep::Refused(ForkError::NotFound)
            });
        }
    }
}

/// Unregistering comes last: until then every step leads to a later one, and
/// only the end follows it.
pub proof fn law_unregister_comes_last(
    step: DeleteStep,
    registered: bool,
    has_children: bool,
    pending: Option<(u128, bool)>,
)
    ensures
        step.stage() < 8 ==> step.after(registered, has_children, pending).stage() > step.stage(),
        step.destroys() && step != DeleteStep::Unregister ==> step.after(
            registered,
            has_children,
            pending,
        ).destroys(),
        step.after(registered, has_children, pending) == DeleteStep::Done ==> step
            == DeleteStep::Unregister || step == DeleteStep::Done,
{
}

/// The source checkpoint goes with a pending fork exactly if fork creation
/// made it.
pub proof fn law_source_checkpoint_released(pending: Option<(u128, bool)>)
    ensures
        delete_step(3, true, false, pending) is SourceCheckpoint <==> (match pending {
            Some((_, owned)) => owned,
            None => false,
        }),
{
    assert(delete_step(0, true, false, pending) == DeleteStep::Registry);
    assert(delete_step(1, true, false, pending) == DeleteStep::Children);
    assert(delete_step(2, true, false, pending) == DeleteStep::Marker);
}

/// A database that a fork's manifest refers to, and the checkpoint that pins
/// it there.
pub struct ExternalDb {
    pub path: String,
    pub final_checkpoint_id: Option<u128>,
}

/// The checkpoints that a fork pins on the volume at `parent_db_path`.
pub open spec fn pins_on(external: Seq<ExternalDb>, parent_db_path: Seq<char>) -> Seq<u128>
    decreases external.len(),
{
    if external.len() == 0 {
        Seq::empty()
    } else {
        let rest = pins_on(external.drop_last(), parent_db_path);
        match external.last().final_checkpoint_id {
            Some(pin) => if external.last().path@ == parent_db_path {
                rest.push(pin)
            } else {
                rest
            },
            None => rest,
        }
    }
}

/// The checkpoints to delete so that a fork no longer pins its parent.
pub fn parent_pins(external: &Vec<ExternalDb>, parent_db_path: &str) -> (pins: Vec<u128>)
    ensures
        pins@ == pins_on(external@, parent_db_path@),
{
    let mut pins: Vec<u128> = Vec::new();
    let mut i: usize = 0;
    while i < external.len()
        invariant
            i <= external@.len(),
            pins@ == pins_on(external@.subrange(0, i as int), parent_db_path@),
        decreases external@.len() - i,
    {
        proof {
            let longer = external@.subrange(0, i + 1);
            assert(longer.drop_last() =~= external@.subrange(0, i as int));
            assert(longer.last() == external@[i as int]);
        }
        if same_text(external[i].path.as_str(), parent_db_path) {
            match external[i].final_checkpoint_id {
                Some(pin) => pins.push(pin),
                None => {},
            }
        }
        i += 1;
    }
    assert(external@.subrange(0, i as int) =~= external@);
    pins
}

/// A checkpoint is released exactly if a database whose path is the parent's,
/// character for character, records it. What is recorded under any other path
/// stays pinned.
pub proof fn law_pins_are_the_parents(
    external: Seq<ExternalDb>,
    parent_db_path: Seq<char>,
    pin: u128,
)
    ensures
        pins_on(external, parent_db_path).contains(pin) <==> exists|i: int|
            0 <= i < external.len() && (#[trigger] external[i]).path@ == parent_db_path
                && external[i].final_checkpoint_id == Some(pin),
    decreases external.len(),
{
    if external.len() > 0 {
        let init = external.drop_last();
        let last = external.len() - 1;
        let pins = pins_on(external, parent_db_path);
        let rest = pins_on(init, parent_db_path);
        law_pins_are_the_parents(init, parent_db_path, pin);
        let own = external[last].path@ == parent_db_path && external[last].final_checkpoint_id
            is Some;
        if own {
            assert(pins == rest.push(external[last].final_checkpoint_id->0));
            assert(pins[rest.len() as int] == external[last].final_checkpoint_id->0);
            assert forall|k: int| 0 <= k < rest.len() implies pins[k] == #[trigger] rest[k] by {}
        } else {
            assert(pins == rest);
        }
        if pins.contains(pin) {
            let k = choose|k: int| 0 <= k < pins.len() && pins[k] == pin;
            if k < rest.len() {
                assert(rest[k] == pin);
                let i = choose|i: int|
                    0 <= i < init.len() && (#[trigger] init[i]).path@ == parent_db_path
                        && init[i].final_checkpoint_id == Some(pin);
                assert(external[i] == init[i]);
            } else {
                assert(external[last].final_checkpoint_id == Some(pin));
            }
        }
        if exists|i: int|
            0 <= i < external.len() && (#[trigger] external[i]).path@ == parent_db_path
                && external[i].final_checkpoint_id == Some(pin) {
            let i = choose|i: int|
                0 <= i < external.len() && (#[trigger] external[i]).path@ == parent_db_path
                    && external[i].final_checkpoint_id == Some(pin);
            if i < last {
                assert(init[i] == external[i]);
                assert(rest.contains(pin));
                let k = choose|k: int| 0 <= k < rest.len() && rest[k] == pin;
                assert(pins[k] == pin);
            } else {
                assert(pins[rest.len() as int] == pin);
            }
        }
    }
}

/// The pins on the parent come in the order of the databases that record them,
/// one for each: what two lists of databases pin is what the one pins and then
/// what the other does.
pub proof fn law_pins_follow_the_list(
    first: Seq<ExternalDb>,
    second: Seq<ExternalDb>,
    parent_db_path: Seq<char>,
)
    ensures
        pins_on(first + second, parent_db_path) == pins_on(first, parent_db_path) + pins_on(
            second,
            parent_db_path,
        ),
        first.len() == 1 ==> pins_on(first, parent_db_path).len() <= 1,
    decreases second.len(),
{
    let all = first + second;
    if second.len() == 0 {
        assert(all =~= first);
        assert(pins_on(first, parent_db_path) + Seq::<u128>::empty() =~= pins_on(
            first,
            parent_db_path,
        ));
    } else {
        law_pins_follow_the_list(first, second.drop_last(), parent_db_path);
        assert(all.drop_last() =~= first + second.drop_last());
        assert(all.last() == second.last());
        let a = pins_on(first, parent_db_path);
        let b = pins_on(second.drop_last(), parent_db_path);
        if second.last().final_checkpoint_id is Some && second.last().path@ == parent_db_path {
            let pin = second.last().final_checkpoint_id->0;
            assert((a + b).push(pin) =~= a + b.push(pin));
        }
    }
    if first.len() == 1 {
        assert(pins_on(first.drop_last(), parent_db_path).len() == 0);
    }
}

/// What is deleted, and in which order. A fork with a database loses its pins on
/// the parent, the database, what is left of its objects, and its registry
/// entry; a fork that is still pending has no database to lose, and the source
/// checkpoint goes first where creation made it.
pub proof fn law_delete_order(pending: Option<(u128, bool)>)
    ensures
        delete_step(0, true, false, pending) == DeleteStep::Registry,
        delete_step(1, true, false, pending) == DeleteStep::Children,
        delete_step(2, true, false, pending) == DeleteStep::Marker,
        match pending {
            None => {
                &&& delete_step(3, true, false, pending) == (DeleteStep::ParentPin {
                    pending: false,
                })
                &&& delete_step(4, true, false, pending) == DeleteStep::Database
                &&& delete_step(5, true, false, pending) == DeleteStep::Objects
                &&& delete_step(6, true, false, pending) == DeleteStep::Unregister
                &&& delete_step(7, true, false, pending) == DeleteStep::Done
            },
            Some((checkpoint_id, true)) => {
                &&& delete_step(3, true, false, pending) == (DeleteStep::SourceCheckpoint {
                    checkpoint_id,
                })
                &&& delete_step(4, true, false, pending) == (DeleteStep::ParentPin {
                    pending: true,
                })
                &&& delete_step(5, true, false, pending) == DeleteStep::Objects
                &&& delete_step(6, true, false, pending) == DeleteStep::Unregister
                &&& delete_step(7, true, false, pending) == DeleteStep::Done
            },
            Some((_, false)) => {
                &&& delete_step(3, true, false, pending) == (DeleteStep::ParentPin {
                    pending: true,
                })
                &&& delete_step(4, true, false, pending) == DeleteStep::Objects
                &&& delete_step(5, true, false, pending) == DeleteStep::Unregister
                &&& delete_step(6, true, false, pending) == DeleteStep::Done
            },
        },
{
    reveal_with_fuel(delete_step, 9);
}

/// What each step leads to, by what reading found.
pub proof fn law_delete_steps(
    registered: bool,
    has_children: bool,
    pending: Option<(u128, bool)>,
    checkpoint_id: u128,
)
    ensures
        DeleteStep::Registry.after(true, has_children, pending) == DeleteStep::Children,
        DeleteStep::Registry.after(false, has_children, pending) == DeleteStep::Refused(
            ForkError::NotFound,
        ),
        DeleteStep::Children.after(registered, true, pending) == DeleteStep::Refused(
            ForkError::HasChildren,
        ),
        DeleteStep::Children.after(registered, false, pending) == DeleteStep::Marker,
        DeleteStep::Marker.after(registered, has_children, Some((checkpoint_id, true))) == (
        DeleteStep::SourceCheckpoint { checkpoint_id }),
        DeleteStep::Marker.after(registered, has_children, Some((checkpoint_id, false))) == (
        DeleteStep::ParentPin { pending: true }),
        DeleteStep::Marker.after(registered, has_children, None) == (DeleteStep::ParentPin {
            pending: false,
        }),
        (DeleteStep::SourceCheckpoint { checkpoint_id }).after(registered, has_children, pending)
            == (DeleteStep::ParentPin { pending: true }),
        (DeleteStep::ParentPin { pending: true }).after(registered, has_children, pending)
            == DeleteStep::Objects,
        (DeleteStep::ParentPin { pending: false }).after(registered, has_children, pending)
            == DeleteStep::Database,
        DeleteStep::Database.after(registered, has_children, pending) == DeleteStep::Objects,
        DeleteStep::Objects.after(registered, has_children, pending) == DeleteStep::Unregister,
        DeleteStep::Unregister.after(registered, has_children, pending) == DeleteStep::Done,
{
}

/// What deletes something: the source checkpoint, the pins, the database, the
/// objects and the registry entry. Reading, refusing and being done do not.
pub proof fn law_steps_that_delete(step: DeleteStep)
    ensures
        step.destroys() <==> match step {
            DeleteStep::SourceCheckpoint { .. } => true,
            DeleteStep::ParentPin { .. } => true,
            DeleteStep::Database => true,
            DeleteStep::Objects => true,
            DeleteStep::Unregister => true,
            DeleteStep::Registry => false,
            DeleteStep::Children => false,
            DeleteStep::Marker => false,
            DeleteStep::Done => false,
            DeleteStep::Refused(_) => false,
        },
{
}

} // verus!
