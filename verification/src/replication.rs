//! Provenance of replicated batches.

use vstd::prelude::*;

verus! {

/// The term of a writer. Zero is the sentinel for "none" and is no epoch.
#[derive(Clone, Copy, Debug, PartialEq, Eq, Structural)]
pub struct WriterEpoch(u64);

impl View for WriterEpoch {
    type V = u64;

    closed spec fn view(&self) -> u64 {
        self.0
    }
}

impl WriterEpoch {
    #[verifier::type_invariant]
    spec fn nonzero(self) -> bool {
        self.0 != 0
    }

    pub fn new(epoch: u64) -> (made: Option<Self>)
        ensures
            match made {
                Some(e) => epoch != 0 && e@ == epoch,
                None => epoch == 0,
            },
    {
        if epoch == 0 {
            None
        } else {
            Some(WriterEpoch(epoch))
        }
    }

    pub fn get(self) -> (epoch: u64)
        ensures
            epoch == self@,
            epoch != 0,
    {
        proof {
            use_type_invariant(self);
        }
        self.0
    }
}

/// The number of a shipped batch. Zero is the sentinel for "none".
#[derive(Clone, Copy, Debug, PartialEq, Eq, Structural)]
pub struct ShipSeqno(u64);

impl View for ShipSeqno {
    type V = u64;

    closed spec fn view(&self) -> u64 {
        self.0
    }
}

impl ShipSeqno {
    #[verifier::type_invariant]
    spec fn nonzero(self) -> bool {
        self.0 != 0
    }

    pub fn new(seqno: u64) -> (made: Option<Self>)
        ensures
            seqno_value(made) == seqno,
            made is None <==> seqno == 0,
    {
        if seqno == 0 {
            None
        } else {
            Some(ShipSeqno(seqno))
        }
    }

    pub fn get(self) -> (seqno: u64)
        ensures
            seqno == self@,
            seqno != 0,
    {
        proof {
            use_type_invariant(self);
        }
        self.0
    }
}

/// The stored form of an optional batch number: zero stands for none.
pub open spec fn seqno_value(seqno: Option<ShipSeqno>) -> u64 {
    match seqno {
        Some(s) => s@,
        None => 0,
    }
}

/// The stored form of an optional batch number.
pub(crate) fn seqno_or_zero(seqno: Option<ShipSeqno>) -> (value: u64)
    ensures
        value == seqno_value(seqno),
        value == 0 <==> seqno is None,
{
    match seqno {
        Some(s) => s.get(),
        None => 0,
    }
}

/// What is known of commits that a writer made without its standby.
#[derive(Clone, Copy, Debug, PartialEq, Eq, Structural)]
pub struct SoloHistory {
    commits: u64,
    ran: bool,
}

impl View for SoloHistory {
    type V = (u64, bool);

    /// Commits since the last ship, and whether the term ever ran Solo.
    closed spec fn view(&self) -> (u64, bool) {
        (self.commits, self.ran)
    }
}

impl SoloHistory {
    #[verifier::type_invariant]
    spec fn consistent(self) -> bool {
        self.commits > 0 ==> self.ran
    }

    /// A term that ran Solo at some time.
    pub fn ever(commits_since_last_ship: u64) -> (history: Self)
        ensures
            history@ == (commits_since_last_ship, true),
    {
        SoloHistory { commits: commits_since_last_ship, ran: true }
    }

    /// A term that never ran Solo.
    pub fn never() -> (history: Self)
        ensures
            history@ == (0u64, false),
    {
        SoloHistory { commits: 0, ran: false }
    }

    /// `None` for Solo commits in a term that never ran Solo.
    pub fn from_parts(commits_since_last_ship: u64, ran_solo: bool) -> (history: Option<Self>)
        ensures
            match history {
                Some(h) => h@ == (commits_since_last_ship, ran_solo) && (commits_since_last_ship
                    == 0 || ran_solo),
                None => commits_since_last_ship > 0 && !ran_solo,
            },
    {
        if commits_since_last_ship > 0 && !ran_solo {
            None
        } else {
            Some(SoloHistory { commits: commits_since_last_ship, ran: ran_solo })
        }
    }

    pub fn commits_since_last_ship(self) -> (commits: u64)
        ensures
            commits == self@.0,
            commits > 0 ==> self@.1,
    {
        proof {
            use_type_invariant(self);
        }
        self.commits
    }

    pub fn ran_solo(self) -> (ran: bool)
        ensures
            ran == self@.1,
    {
        self.ran
    }
}

/// The contents of a stamp, with zero for an absent batch number.
pub struct StampFields {
    pub epoch: u64,
    pub last_shipped: u64,
    pub solo_commits: u64,
    pub applied_through: u64,
    pub ran_solo: bool,
}

impl StampFields {
    /// A writer epoch is present, nothing acknowledged is unapplied, and Solo
    /// commits only stand in a term that ran Solo.
    pub open spec fn valid(self) -> bool {
        &&& self.epoch != 0
        &&& self.last_shipped <= self.applied_through
        &&& self.solo_commits > 0 ==> self.ran_solo
    }
}

/// Why a stamp was refused.
#[derive(Clone, Copy, Debug, PartialEq, Eq, Structural)]
pub enum HaStampError {
    /// The applied frontier lies behind an acknowledged ship.
    AppliedBehindShipped,
}

/// Provenance flushed with each replicated batch: writer epoch, acknowledged
/// ship, Solo history, and the highest ship applied here.
#[derive(Clone, Copy, Debug, PartialEq, Eq, Structural)]
pub struct HaStamp {
    writer_epoch: WriterEpoch,
    last_shipped: Option<ShipSeqno>,
    solo_history: SoloHistory,
    applied_through: Option<ShipSeqno>,
}

impl View for HaStamp {
    type V = StampFields;

    closed spec fn view(&self) -> StampFields {
        StampFields {
            epoch: self.writer_epoch@,
            last_shipped: seqno_value(self.last_shipped),
            solo_commits: self.solo_history@.0,
            applied_through: seqno_value(self.applied_through),
            ran_solo: self.solo_history@.1,
        }
    }
}

impl HaStamp {
    #[verifier::type_invariant]
    spec fn ordered(self) -> bool {
        self@.valid()
    }

    pub fn new(
        writer_epoch: WriterEpoch,
        last_shipped: Option<ShipSeqno>,
        solo_history: SoloHistory,
        applied_through: Option<ShipSeqno>,
    ) -> (stamp: Result<Self, HaStampError>)
        ensures
            match stamp {
                Ok(s) => s@ == (StampFields {
                    epoch: writer_epoch@,
                    last_shipped: seqno_value(last_shipped),
                    solo_commits: solo_history@.0,
                    applied_through: seqno_value(applied_through),
                    ran_solo: solo_history@.1,
                }) && s@.valid(),
                Err(_) => seqno_value(applied_through) < seqno_value(last_shipped),
            },
    {
        if seqno_or_zero(applied_through) < seqno_or_zero(last_shipped) {
            return Err(HaStampError::AppliedBehindShipped);
        }
        proof {
            use_type_invariant(writer_epoch);
            use_type_invariant(solo_history);
        }
        Ok(HaStamp { writer_epoch, last_shipped, solo_history, applied_through })
    }

    pub fn writer_epoch(&self) -> (epoch: WriterEpoch)
        ensures
            epoch@ == self@.epoch,
    {
        self.writer_epoch
    }

    pub fn last_shipped(&self) -> (seqno: Option<ShipSeqno>)
        ensures
            seqno_value(seqno) == self@.last_shipped,
    {
        self.last_shipped
    }

    pub fn solo_history(&self) -> (history: SoloHistory)
        ensures
            history@ == (self@.solo_commits, self@.ran_solo),
    {
        self.solo_history
    }

    pub fn applied_through(&self) -> (seqno: Option<ShipSeqno>)
        ensures
            seqno_value(seqno) == self@.applied_through,
    {
        self.applied_through
    }
}

/// A stamp holds together exactly if it names a writer epoch, nothing was
/// acknowledged that is not applied, and Solo commits are only counted in a term
/// that ran Solo. An absent batch number counts as zero.
pub proof fn law_stamps_that_hold_together(stamp: StampFields, seqno: ShipSeqno)
    ensures
        stamp.valid() <==> stamp.epoch > 0 && !(stamp.last_shipped > stamp.applied_through) && (
        stamp.solo_commits == 0 || stamp.ran_solo),
        seqno_value(None) == 0,
        seqno_value(Some(seqno)) == seqno@,
{
}

} // verus!
