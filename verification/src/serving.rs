//! Who may be served: what every read, write and flush has to pass.

use crate::errors::FsError;
use crate::transaction::Transaction;
use vstd::prelude::*;

verus! {

/// What a handle knows of its authority at one moment.
#[derive(Clone, Copy, Debug, PartialEq, Eq, Structural)]
pub struct ServingState {
    /// Local close has begun.
    pub closing: bool,
    /// Whether the leader lease is valid; `None` without replication.
    pub lease_valid: Option<bool>,
    /// Whether the database reports that it was closed, as a takeover does;
    /// `None` where there is no status to watch.
    pub database_closed: Option<bool>,
}

impl ServingState {
    /// This node is no longer the serving leader.
    pub open spec fn deposed(self) -> bool {
        self.closing || self.lease_valid == Some(false) || self.database_closed == Some(true)
    }

    pub fn is_deposed(&self) -> (deposed: bool)
        ensures
            deposed <==> self.closing || self.lease_valid == Some(false) || self.database_closed
                == Some(true),
            deposed == self.deposed(),
    {
        if self.closing {
            return true;
        }
        match self.lease_valid {
            Some(valid) => if !valid {
                return true;
            },
            None => {},
        }
        match self.database_closed {
            Some(closed) => closed,
            None => false,
        }
    }

    /// What a serving read has to pass, before the read and again before its result
    /// is published.
    pub fn check_serving_authority(&self) -> (checked: Result<(), FsError>)
        ensures
            checked is Ok <==> !self.closing && self.lease_valid != Some(false)
                && self.database_closed != Some(true),
            checked == if self.deposed() {
                Err::<(), FsError>(FsError::LeaderLeaseExpired)
            } else {
                Ok(())
            },
    {
        if self.is_deposed() {
            Err(FsError::LeaderLeaseExpired)
        } else {
            Ok(())
        }
    }

    /// Whether a protocol adapter may emit a successful response.
    pub fn permits_successful_response(&self) -> (permitted: bool)
        ensures
            permitted <==> !self.closing && self.lease_valid != Some(false)
                && self.database_closed != Some(true),
            permitted == !self.deposed(),
    {
        !self.is_deposed()
    }
}

/// What admitted or durability work learns once it has waited through any
/// recoverable suspension of the lease.
#[derive(Clone, Copy, Debug, PartialEq, Eq, Structural)]
pub struct InternalAuthority {
    /// Whether the lease permits internal work; `None` without replication.
    pub lease_permits: Option<bool>,
    /// Whether the database reports that it was closed; `None` where there is
    /// no status to watch.
    pub database_closed: Option<bool>,
}

impl InternalAuthority {
    /// Terminal revocation and fencing are errors.
    pub open spec fn lost(self) -> bool {
        self.lease_permits == Some(false) || self.database_closed == Some(true)
    }

    pub fn check_internal_lease(&self) -> (checked: Result<(), FsError>)
        ensures
            checked is Ok <==> self.database_closed != Some(true) && self.lease_permits != Some(
                false,
            ),
            checked == if self.lost() {
                Err::<(), FsError>(FsError::LeaderLeaseExpired)
            } else {
                Ok(())
            },
    {
        match self.lease_permits {
            Some(permits) => if !permits {
                return Err(FsError::LeaderLeaseExpired);
            },
            None => {},
        }
        match self.database_closed {
            Some(closed) => if closed {
                return Err(FsError::LeaderLeaseExpired);
            },
            None => {},
        }
        Ok(())
    }
}

/// Refuses work once local close has begun.
pub fn check_closing(closing: bool) -> (checked: Result<(), FsError>)
    ensures
        checked == if closing {
            Err::<(), FsError>(FsError::ShuttingDown)
        } else {
            Ok(())
        },
{
    if closing {
        Err(FsError::ShuttingDown)
    } else {
        Ok(())
    }
}

/// What internal work has to pass: authority first, then the
/// local close.
pub fn check_internal_work(authority: InternalAuthority, closing: bool) -> (checked: Result<
    (),
    FsError,
>)
    ensures
        checked is Ok <==> authority.database_closed != Some(true) && authority.lease_permits
            != Some(false) && !closing,
        checked == if authority.lost() {
            Err::<(), FsError>(FsError::LeaderLeaseExpired)
        } else if closing {
            Err(FsError::ShuttingDown)
        } else {
            Ok(())
        },
{
    match authority.check_internal_lease() {
        Ok(_) => check_closing(closing),
        Err(e) => Err(e),
    }
}

/// What a flush has to pass.
pub fn check_flush(read_only: bool, authority: InternalAuthority, closing: bool) -> (checked:
    Result<(), FsError>)
    ensures
        checked is Ok <==> !read_only && authority.database_closed != Some(true)
            && authority.lease_permits != Some(false) && !closing,
        checked == if read_only {
            Err::<(), FsError>(FsError::ReadOnlyFilesystem)
        } else if authority.lost() {
            Err(FsError::LeaderLeaseExpired)
        } else if closing {
            Err(FsError::ShuttingDown)
        } else {
            Ok(())
        },
{
    if read_only {
        return Err(FsError::ReadOnlyFilesystem);
    }
    check_internal_work(authority, closing)
}

/// A transaction can only be begun on a writer.
pub fn new_transaction<G, O, R>(read_only: bool) -> (txn: Result<Transaction<G, O, R>, FsError>)
    ensures
        match txn {
            Ok(t) => !read_only && t@.ops.len() == 0 && t@.drained(),
            Err(e) => read_only && e == FsError::ReadOnlyFilesystem,
        },
{
    if read_only {
        return Err(FsError::ReadOnlyFilesystem);
    }
    Ok(Transaction::new())
}

/// Admission of one database write, of a batch or of a single key. Every wait comes before the write is
/// admitted: for the lease, and for a seal-and-flush that is under way.
#[derive(Clone, Copy, Debug, PartialEq, Eq, Structural)]
pub enum WriteAdmission {
    /// Wait until the lease permits internal work.
    AwaitAuthority,
    /// Wait for the read side of the flush barrier.
    AwaitBarrier,
    /// The barrier is held; authority may have gone while waiting for it.
    RecheckAuthority,
    /// The write may go ahead, under the barrier.
    Admitted,
    Refused(FsError),
}

impl WriteAdmission {
    /// The first state of an admission.
    pub open spec fn begun(read_only: bool) -> WriteAdmission {
        if read_only {
            WriteAdmission::Refused(FsError::ReadOnlyFilesystem)
        } else {
            WriteAdmission::AwaitAuthority
        }
    }

    /// The state after authority was looked at.
    pub open spec fn decided(self, found: InternalAuthority, closing: bool) -> WriteAdmission {
        if found.lost() {
            WriteAdmission::Refused(FsError::LeaderLeaseExpired)
        } else if self == WriteAdmission::AwaitAuthority {
            WriteAdmission::AwaitBarrier
        } else if closing {
            WriteAdmission::Refused(FsError::ShuttingDown)
        } else {
            WriteAdmission::Admitted
        }
    }

    /// A write on a reader is refused at once.
    pub fn begin(read_only: bool) -> (admission: Self)
        ensures
            admission == WriteAdmission::begun(read_only),
    {
        if read_only {
            WriteAdmission::Refused(FsError::ReadOnlyFilesystem)
        } else {
            WriteAdmission::AwaitAuthority
        }
    }

    /// Takes the authority found, and whether local close has begun. Close is
    /// only looked at under the barrier, where it cannot begin any more.
    pub fn authority(self, found: InternalAuthority, closing: bool) -> (next: Self)
        requires
            self == WriteAdmission::AwaitAuthority || self == WriteAdmission::RecheckAuthority,
        ensures
            next == self.decided(found, closing),
            found.database_closed == Some(true) || found.lease_permits == Some(false) ==> next
                == WriteAdmission::Refused(FsError::LeaderLeaseExpired),
            next == WriteAdmission::Admitted ==> self == WriteAdmission::RecheckAuthority
                && !closing,
    {
        match found.check_internal_lease() {
            Err(e) => WriteAdmission::Refused(e),
            Ok(_) => match self {
                WriteAdmission::AwaitAuthority => WriteAdmission::AwaitBarrier,
                _ => match check_closing(closing) {
                    Err(e) => WriteAdmission::Refused(e),
                    Ok(_) => WriteAdmission::Admitted,
                },
            },
        }
    }

    /// The read side of the flush barrier is held.
    pub fn barrier_held(self) -> (next: Self)
        requires
            self == WriteAdmission::AwaitBarrier,
        ensures
            next == WriteAdmission::RecheckAuthority,
    {
        WriteAdmission::RecheckAuthority
    }
}

/// What a single put has to pass when it is written: a deposed node writes
/// nothing.
pub fn check_put(read_only: bool, authority: InternalAuthority, closing: bool) -> (checked: Result<
    (),
    FsError,
>)
    ensures
        checked is Ok <==> !read_only && authority.database_closed != Some(true)
            && authority.lease_permits != Some(false) && !closing,
        checked == if read_only {
            Err::<(), FsError>(FsError::ReadOnlyFilesystem)
        } else if authority.lost() {
            Err(FsError::LeaderLeaseExpired)
        } else if closing {
            Err(FsError::ShuttingDown)
        } else {
            Ok(())
        },
{
    if read_only {
        return Err(FsError::ReadOnlyFilesystem);
    }
    check_internal_work(authority, closing)
}

/// Where an admission ends, given the authority found before the barrier and
/// under it, and whether local close had begun at each of these moments.
pub open spec fn admission_of(
    read_only: bool,
    before: InternalAuthority,
    closing_before: bool,
    under: InternalAuthority,
    closing_under: bool,
) -> WriteAdmission {
    match WriteAdmission::begun(read_only) {
        WriteAdmission::AwaitAuthority => match WriteAdmission::AwaitAuthority.decided(
            before,
            closing_before,
        ) {
            WriteAdmission::AwaitBarrier => WriteAdmission::RecheckAuthority.decided(
                under,
                closing_under,
            ),
            ended => ended,
        },
        ended => ended,
    }
}

/// A write, of a batch or of a single key, is admitted exactly if the handle is a writer, authority held before
/// the barrier and again under it, and local close had not begun by then.
pub proof fn law_admitted_write_had_authority(
    read_only: bool,
    before: InternalAuthority,
    closing_before: bool,
    under: InternalAuthority,
    closing_under: bool,
)
    ensures
        admission_of(read_only, before, closing_before, under, closing_under)
            == WriteAdmission::Admitted <==> !read_only && !before.lost() && !under.lost()
            && !closing_under,
{
}

/// A node serves exactly if its close has not begun, its lease, where it has
/// one, is valid, and its database, where it is watched, is open. None of the
/// three makes up for another.
pub proof fn law_deposed_by_any_sign(state: ServingState)
    ensures
        state.closing ==> state.deposed(),
        state.lease_valid == Some(false) ==> state.deposed(),
        state.database_closed == Some(true) ==> state.deposed(),
        !state.closing && state.lease_valid != Some(false) && state.database_closed != Some(true)
            ==> !state.deposed(),
{
}

/// A closed database refuses internal work whatever the lease says, a lease that
/// does not permit it refuses it whatever the database says, and nothing else
/// does.
pub proof fn law_authority_lost_by_either_sign(authority: InternalAuthority)
    ensures
        authority.database_closed == Some(true) ==> authority.lost(),
        authority.lease_permits == Some(false) ==> authority.lost(),
        authority.database_closed != Some(true) && authority.lease_permits != Some(false)
            ==> !authority.lost(),
{
}

/// Neither look at authority lets a write pass with a closed database, whatever
/// the lease says, nor with a lease that does not permit it, whatever the
/// database says.
pub proof fn law_fenced_write_is_refused(
    at: WriteAdmission,
    found: InternalAuthority,
    closing: bool,
)
    requires
        at == WriteAdmission::AwaitAuthority || at == WriteAdmission::RecheckAuthority,
    ensures
        found.database_closed == Some(true) ==> at.decided(found, closing)
            == WriteAdmission::Refused(FsError::LeaderLeaseExpired),
        found.lease_permits == Some(false) ==> at.decided(found, closing)
            == WriteAdmission::Refused(FsError::LeaderLeaseExpired),
{
}

/// With an open database and a lease that permits it, a write first comes to the
/// barrier; under the barrier it goes ahead unless local close has begun.
pub proof fn law_entitled_write_goes_on(found: InternalAuthority, closing: bool)
    requires
        found.database_closed != Some(true),
        found.lease_permits != Some(false),
    ensures
        WriteAdmission::AwaitAuthority.decided(found, closing) == WriteAdmission::AwaitBarrier,
        WriteAdmission::RecheckAuthority.decided(found, false) == WriteAdmission::Admitted,
        WriteAdmission::RecheckAuthority.decided(found, true) == WriteAdmission::Refused(
            FsError::ShuttingDown,
        ),
{
}

/// Only a writer gets as far as asking for authority, and no write is admitted
/// from the start.
pub proof fn law_reader_is_refused_at_once()
    ensures
        WriteAdmission::begun(true) == WriteAdmission::Refused(FsError::ReadOnlyFilesystem),
        WriteAdmission::begun(false) == WriteAdmission::AwaitAuthority,
{
}

/// A write is admitted exactly if the handle is a writer, neither look found the
/// database closed nor the lease withheld, and local close had not begun under
/// the barrier.
pub proof fn law_admission_needs_lease_and_database(
    read_only: bool,
    before: InternalAuthority,
    closing_before: bool,
    under: InternalAuthority,
    closing_under: bool,
)
    ensures
        admission_of(read_only, before, closing_before, under, closing_under)
            == WriteAdmission::Admitted <==> {
            &&& !read_only
            &&& before.database_closed != Some(true)
            &&& before.lease_permits != Some(false)
            &&& under.database_closed != Some(true)
            &&& under.lease_permits != Some(false)
            &&& !closing_under
        },
{
}

} // verus!
