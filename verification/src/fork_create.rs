//! Creating a fork, step by step.
//!
//! The registry entry goes into the parent's LSM last. A crash can leave a
//! fork that is not listed, never a listed fork whose lineage or marker is
//! missing.

use crate::blob::bytes_seq;
use crate::fork_info::{
    base_epoch_of, child_ancestors_view, law_child_ancestors_ascend, lineage_ascends, ForkInfo,
    ForkInfoView,
};
use crate::fork_manager::{
    asks_for, branch_from, fork_name_error, fork_registry_row, is_simple_uuid, opt_text,
    same_source, validate_fork_name, BranchFrom, BranchPoint, ForkError, PendingFork,
    ResolveBranchPoint,
};
use crate::key_codec::KeyCodec;
use crate::text::{trim, trimmed};
use bytes::Bytes;
use vstd::prelude::*;
use vstd::string::StringExecFns;

verus! {

/// A request to create a fork, with its name checked.
pub struct ForkRequest {
    pub name: String,
    pub parent_db_path: String,
    pub source: BranchFrom,
    /// Take the branch point under the seal-and-flush barrier and materialize
    /// the fork at once.
    pub barrier: bool,
}

/// A creation under way.
pub enum CreateFork {
    /// Fetch the registry row of this name.
    Registry { request: ForkRequest, registry_key: Bytes },
    /// Resolve the branch point.
    BranchPoint { request: ForkRequest, registry_key: Bytes },
    /// Read the parent's own lineage record, and the clock.
    Lineage { request: ForkRequest, registry_key: Bytes, point: BranchPoint },
    /// Build the fork's database now.
    Materialize { info: ForkInfo, registry_key: Bytes, checkpoint_id: u128 },
    /// Write the marker from which the fork's first open builds it.
    WriteMarker { pending: PendingFork, registry_key: Bytes },
    /// Write the registry entry.
    Register { info: ForkInfo, registry_key: Bytes },
    Done { info: ForkInfo },
    Refused { error: ForkError },
}

/// Why a request to create or delete a fork is refused before anything is
/// read.
pub open spec fn request_error(name: Seq<char>, read_only: bool) -> Option<ForkError> {
    match fork_name_error(trimmed(name)) {
        Some(e) => Some(e),
        None => if read_only {
            Some(ForkError::ReadOnly)
        } else {
            None
        },
    }
}

/// The lineage record of a new fork.
pub open spec fn new_fork_info(
    request: ForkRequest,
    point: BranchPoint,
    parent: Option<ForkInfoView>,
    created_at: u64,
) -> ForkInfoView {
    ForkInfoView {
        name: request.name@,
        parent_db_path: request.parent_db_path@,
        base_epoch: point.base_epoch,
        created_at,
        ancestors: child_ancestors_view(parent, request.parent_db_path@),
    }
}

/// A fork's lineage ascends if its parent's does: the branch point is a state
/// that the parent itself wrote, so its epoch is at least the parent's base
/// epoch, and the fork's base epoch is one above it.
pub proof fn law_created_lineage_ascends(
    request: ForkRequest,
    point: BranchPoint,
    parent: Option<ForkInfoView>,
    created_at: u64,
)
    requires
        parent is Some ==> lineage_ascends(parent->0),
        point.base_epoch > base_epoch_of(parent),
    ensures
        lineage_ascends(new_fork_info(request, point, parent, created_at)),
{
    law_child_ancestors_ascend(parent, request.parent_db_path@);
}

impl CreateFork {
    /// How far the creation has come.
    pub open spec fn stage(self) -> nat {
        match self {
            CreateFork::Registry { .. } => 0,
            CreateFork::BranchPoint { .. } => 1,
            CreateFork::Lineage { .. } => 2,
            CreateFork::Materialize { .. } => 3,
            CreateFork::WriteMarker { .. } => 3,
            CreateFork::Register { .. } => 4,
            CreateFork::Done { .. } => 5,
            CreateFork::Refused { .. } => 6,
        }
    }

    /// The registry row that the creation reads and writes.
    pub open spec fn row(self) -> Option<Seq<u8>> {
        match self {
            CreateFork::Registry { registry_key, .. } => Some(bytes_seq(registry_key)),
            CreateFork::BranchPoint { registry_key, .. } => Some(bytes_seq(registry_key)),
            CreateFork::Lineage { registry_key, .. } => Some(bytes_seq(registry_key)),
            CreateFork::Materialize { registry_key, .. } => Some(bytes_seq(registry_key)),
            CreateFork::WriteMarker { registry_key, .. } => Some(bytes_seq(registry_key)),
            CreateFork::Register { registry_key, .. } => Some(bytes_seq(registry_key)),
            _ => None,
        }
    }

    pub fn begin(
        name: &str,
        read_only: bool,
        parent_db_path: &str,
        from_checkpoint: Option<&str>,
        at: Option<(i64, u32)>,
        barrier: bool,
    ) -> (create: Self)
        ensures
            match request_error(name@, read_only) {
                Some(e) => create == (CreateFork::Refused { error: e }),
                None => match create {
                    CreateFork::Registry { request, registry_key } => request.name@ == trimmed(name@)
                        && request.parent_db_path@ == parent_db_path@ && asks_for(
                        request.source,
                        opt_text(from_checkpoint),
                        at,
                    ) && request.barrier == barrier && bytes_seq(registry_key) == fork_registry_row(
                        trimmed(name@),
                    ),
                    _ => false,
                },
            },
    {
        let name = trim(name);
        match validate_fork_name(name) {
            Ok(_) => {},
            Err(error) => return CreateFork::Refused { error },
        }
        if read_only {
            return CreateFork::Refused { error: ForkError::ReadOnly };
        }
        CreateFork::Registry {
            request: ForkRequest {
                name: String::from_str(name),
                parent_db_path: String::from_str(parent_db_path),
                source: branch_from(from_checkpoint, at),
                barrier,
            },
            registry_key: KeyCodec::new().fork_registry_key(name),
        }
    }

    /// The registry was read: whether the name is taken.
    pub fn registry_read(self, taken: bool) -> (next: Self)
        requires
            self is Registry,
        ensures
            next.stage() == if taken {
                6
            } else {
                self.stage() + 1
            },
            match self {
                CreateFork::Registry { request, registry_key } => next == if taken {
                    CreateFork::Refused { error: ForkError::AlreadyExists }
                } else {
                    CreateFork::BranchPoint { request, registry_key }
                },
                _ => true,
            },
    {
        match self {
            CreateFork::Registry { request, registry_key } => if taken {
                CreateFork::Refused { error: ForkError::AlreadyExists }
            } else {
                CreateFork::BranchPoint { request, registry_key }
            },
            other => other,
        }
    }

    /// Starts the resolution of the branch point that the request asks for.
    pub fn begin_branch_point(&self) -> (resolve: ResolveBranchPoint)
        requires
            self is BranchPoint,
        ensures
            match self {
                CreateFork::BranchPoint { request, .. } => exists|
                    source: BranchFrom,
                    unique: Seq<char>,
                | #[trigger]
                    resolve.begins(request.name@, source, request.barrier, unique) && same_source(
                        source,
                        request.source,
                    ) && is_simple_uuid(unique),
                _ => true,
            },
    {
        match self {
            CreateFork::BranchPoint { request, .. } => ResolveBranchPoint::begin(
                request.name.as_str(),
                request.source.copy(),
                request.barrier,
            ),
            _ => ResolveBranchPoint::Refused { error: ForkError::NotFound },
        }
    }

    /// The branch point was resolved.
    pub fn branch_point_resolved(self, point: BranchPoint) -> (next: Self)
        requires
            self is BranchPoint,
        ensures
            next.stage() == self.stage() + 1,
            match self {
                CreateFork::BranchPoint { request, registry_key } => next == (CreateFork::Lineage {
                    request,
                    registry_key,
                    point,
                }),
                _ => true,
            },
    {
        match self {
            CreateFork::BranchPoint { request, registry_key } => CreateFork::Lineage {
                request,
                registry_key,
                point,
            },
            other => other,
        }
    }

    /// The parent's lineage and the time were read. The fork is materialized
    /// at once under the barrier, and by its first open otherwise.
    pub fn lineage_read(self, parent: Option<&ForkInfo>, created_at: u64) -> (next: Self)
        requires
            self is Lineage,
        ensures
            next.stage() == self.stage() + 1,
            match self {
                CreateFork::Lineage { request, registry_key, point } => {
                    let info = new_fork_info(
                        request,
                        point,
                        match parent {
                            Some(p) => Some(p@),
                            None => None,
                        },
                        created_at,
                    );
                    match next {
                        CreateFork::Materialize { info: i, registry_key: k, checkpoint_id } =>
                            request.barrier && i@ == info && k == registry_key && checkpoint_id
                            == point.checkpoint_id,
                        CreateFork::WriteMarker { pending, registry_key: k } => !request.barrier
                            && pending.fork_info@ == info && k == registry_key
                            && pending.source_checkpoint_id == point.checkpoint_id
                            && pending.source_checkpoint_name@ == point.checkpoint_name@
                            && pending.source_checkpoint_owned == point.owned,
                        _ => false,
                    }
                },
                _ => true,
            },
    {
        match self {
            CreateFork::Lineage { request, registry_key, point } => {
                let ancestors = ForkInfo::child_ancestors(parent, request.parent_db_path.as_str());
                let info = ForkInfo {
                    name: request.name,
                    parent_db_path: request.parent_db_path,
                    base_epoch: point.base_epoch,
                    created_at,
                    ancestors,
                };
                if request.barrier {
                    CreateFork::Materialize {
                        info,
                        registry_key,
                        checkpoint_id: point.checkpoint_id,
                    }
                } else {
                    CreateFork::WriteMarker {
                        pending: PendingFork {
                            fork_info: info,
                            source_checkpoint_id: point.checkpoint_id,
                            source_checkpoint_name: point.checkpoint_name,
                            source_checkpoint_owned: point.owned,
                        },
                        registry_key,
                    }
                }
            },
            other => other,
        }
    }

    /// The fork was materialized, or its marker written.
    pub fn published(self) -> (next: Self)
        requires
            self is Materialize || self is WriteMarker,
        ensures
            next.stage() == self.stage() + 1,
            match (self, next) {
                (
                    CreateFork::Materialize { info, registry_key, .. },
                    CreateFork::Register { info: i, registry_key: k },
                ) => i@ == info@ && k == registry_key,
                (
                    CreateFork::WriteMarker { pending, registry_key },
                    CreateFork::Register { info: i, registry_key: k },
                ) => i@ == pending.fork_info@ && k == registry_key,
                _ => false,
            },
    {
        match self {
            CreateFork::Materialize { info, registry_key, .. } => CreateFork::Register {
                info,
                registry_key,
            },
            CreateFork::WriteMarker { pending, registry_key } => CreateFork::Register {
                info: pending.fork_info,
                registry_key,
            },
            other => other,
        }
    }

    /// The registry entry was written.
    pub fn registered(self) -> (next: Self)
        requires
            self is Register,
        ensures
            next.stage() == self.stage() + 1,
            match (self, next) {
                (CreateFork::Register { info, .. }, CreateFork::Done { info: i }) => i@ == info@,
                _ => false,
            },
    {
        match self {
            CreateFork::Register { info, .. } => CreateFork::Done { info },
            other => other,
        }
    }
}

/// A request is refused before anything is read exactly if its name, white space
/// around it aside, is no fork name, or the volume is read-only; a bad name is
/// what is told of a request with both.
pub proof fn law_request_refused_at_once(name: Seq<char>, read_only: bool)
    ensures
        request_error(name, read_only) is None <==> fork_name_error(trimmed(name)) is None
            && !read_only,
        request_error(name, read_only) == Some(ForkError::ReadOnly) <==> fork_name_error(
            trimmed(name),
        ) is None && read_only,
        fork_name_error(trimmed(name)) is Some ==> request_error(name, read_only)
            == fork_name_error(trimmed(name)),
{
}

/// A new fork's record: the name and the parent's path as requested, the branch
/// point's base epoch and the given time. Its lineage is the parent's, each
/// ancestor as it was, and then the parent with the parent's own base epoch, which
/// is 0 where the parent is no fork.
pub proof fn law_new_fork_record(
    request: ForkRequest,
    point: BranchPoint,
    parent: Option<ForkInfoView>,
    created_at: u64,
)
    ensures
        ({
            let info = new_fork_info(request, point, parent, created_at);
            &&& info.name == request.name@
            &&& info.parent_db_path == request.parent_db_path@
            &&& info.base_epoch == point.base_epoch
            &&& info.created_at == created_at
            &&& match parent {
                Some(p) => {
                    &&& info.ancestors.len() == p.ancestors.len() + 1
                    &&& forall|i: int|
                        0 <= i < p.ancestors.len() ==> #[trigger] info.ancestors[i]
                            == p.ancestors[i]
                    &&& info.ancestors.last().0 == request.parent_db_path@
                    &&& info.ancestors.last().1 == p.base_epoch
                },
                None => {
                    &&& info.ancestors.len() == 1
                    &&& info.ancestors[0].0 == request.parent_db_path@
                    &&& info.ancestors[0].1 == 0
                },
            }
        }),
{
}

} // verus!
