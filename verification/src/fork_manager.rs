//! Writable forks: what creating, listing and deleting one decides.
//!
//! Creation is two-phase. Registration pins a branch point on the parent,
//! writes a pending-materialization marker under the fork's db path, and then
//! the registry entry into the parent's LSM. The fork's first open runs the
//! deferred clone, key copy and lineage write, and deletes the marker last. A
//! creation under the barrier runs both phases at once.
//!
//! The steps that touch stores are done by the caller; the types here say
//! which step comes next.

use crate::fork_info::{fork_db_path, ForkInfo, ForkInfoView, FORKS_INFIX};
use crate::key_codec::{full_key, KeyPrefix};
use crate::layout_laws::law_key_bytes;
use crate::path::{is_plain_char, joined, path_from, path_from_text, path_join, path_raw};
use crate::text::{push_signed_decimal, signed_decimal, trim, trimmed};
use object_store::path::Path;
use vstd::prelude::*;
use vstd::string::{StrSliceExecFns, StringExecFns};
use vstd::utf8::encode_utf8;

verus! {

/// Object name of the pending-materialization marker under a fork's db path.
pub const PENDING_FORK_FILENAME: &'static str = ".zerofs_fork_pending.json";

/// Why a fork request was refused.
#[derive(Clone, Copy, Debug, PartialEq, Eq, Structural)]
pub enum ForkError {
    NameEmpty,
    /// A character other than an ASCII letter, a digit, `-`, `_` or `.`.
    NameInvalid,
    /// The volume is open read-only.
    ReadOnly,
    AlreadyExists,
    NotFound,
    /// The fork has forks of its own.
    HasChildren,
    /// The named checkpoint does not exist.
    CheckpointNotFound,
    /// The checkpoint was deleted meanwhile.
    CheckpointGone,
    /// The manifest of the branch point does not exist.
    ManifestNotFound,
    /// No manifest was flushed at or before the given time.
    NoManifestAtTime,
}

/// Why `name` is no fork name, if it is none.
pub open spec fn fork_name_error(name: Seq<char>) -> Option<ForkError> {
    if name.len() == 0 {
        Some(ForkError::NameEmpty)
    } else if exists|i: int| 0 <= i < name.len() && !is_plain_char(#[trigger] name[i]) {
        Some(ForkError::NameInvalid)
    } else {
        None
    }
}

/// A fork name is not empty and holds only ASCII letters, digits, `-`, `_` and
/// `.`.
pub fn validate_fork_name(name: &str) -> (checked: Result<(), ForkError>)
    ensures
        checked == match fork_name_error(name@) {
            Some(e) => Err::<(), ForkError>(e),
            None => Ok(()),
        },
{
    let n: usize = name.unicode_len();
    if n == 0 {
        return Err(ForkError::NameEmpty);
    }
    let mut i: usize = 0;
    while i < n
        invariant
            i <= n,
            n == name@.len(),
            n > 0,
            forall|k: int| 0 <= k < i ==> is_plain_char(#[trigger] name@[k]),
        decreases n - i,
    {
        let c = name.get_char(i);
        let plain = ('0' <= c && c <= '9') || ('a' <= c && c <= 'z') || ('A' <= c && c <= 'Z') || c
            == '-' || c == '_' || c == '.';
        if !plain {
            assert(!is_plain_char(name@[i as int]));
            return Err(ForkError::NameInvalid);
        }
        i += 1;
    }
    Ok(())
}

/// Everything that a fork's first open needs to build the fork's database.
pub struct PendingFork {
    pub fork_info: ForkInfo,
    pub source_checkpoint_id: u128,
    pub source_checkpoint_name: String,
    /// Whether fork creation itself pinned the source checkpoint. Deleting a
    /// pending fork then releases it; a checkpoint that the user named stays.
    pub source_checkpoint_owned: bool,
}

/// The contents of a pending-materialization record.
pub struct PendingForkView {
    pub fork_info: ForkInfoView,
    pub source_checkpoint_id: u128,
    pub source_checkpoint_name: Seq<char>,
    pub source_checkpoint_owned: bool,
}

impl View for PendingFork {
    type V = PendingForkView;

    open spec fn view(&self) -> PendingForkView {
        PendingForkView {
            fork_info: self.fork_info@,
            source_checkpoint_id: self.source_checkpoint_id,
            source_checkpoint_name: self.source_checkpoint_name@,
            source_checkpoint_owned: self.source_checkpoint_owned,
        }
    }
}

/// Where the marker of the fork at `fork_db_path` lives.
pub open spec fn marker_of(fork_db_path: Seq<char>) -> Seq<char> {
    joined(fork_db_path, PENDING_FORK_FILENAME@)
}

/// The path of the volume that a fork was cut from.
pub open spec fn parent_of(info: ForkInfoView) -> Seq<char> {
    path_from_text(info.parent_db_path)
}

/// The path of a fork's own database.
pub open spec fn home_of(info: ForkInfoView) -> Seq<char> {
    path_from_text(fork_db_path(info.parent_db_path, info.name))
}

impl PendingFork {
    /// Where the marker of the fork that this record describes is written.
    pub fn marker(&self) -> (path: Path)
        ensures
            path_raw(path) == marker_of(home_of(self@.fork_info)),
    {
        let home = ForkInfo::db_path(
            self.fork_info.parent_db_path.as_str(),
            self.fork_info.name.as_str(),
        );
        PendingFork::path(&path_from(home.as_str()))
    }

    /// Where the marker of the fork at `fork_db_path` lives.
    pub fn path(fork_db_path: &Path) -> (path: Path)
        ensures
            path_raw(path) == marker_of(path_raw(*fork_db_path)),
    {
        proof {
            reveal_strlit(".zerofs_fork_pending.json");
            let name = ".zerofs_fork_pending.json"@;
            assert(name.len() == 25);
            assert forall|i: int| 0 <= i < name.len() implies is_plain_char(#[trigger] name[i]) by {
                assert(i == 0 || i == 1 || i == 2 || i == 3 || i == 4 || i == 5 || i == 6 || i == 7
                    || i == 8 || i == 9 || i == 10 || i == 11 || i == 12 || i == 13 || i == 14 || i
                    == 15 || i == 16 || i == 17 || i == 18 || i == 19 || i == 20 || i == 21 || i
                    == 22 || i == 23 || i == 24);
            }
        }
        path_join(fork_db_path.clone(), PENDING_FORK_FILENAME)
    }
}

/// The registry row of a fork in its parent's LSM.
pub open spec fn fork_registry_row(name: Seq<char>) -> Seq<u8> {
    full_key(0, KeyPrefix::ForkRegistry, encode_utf8(name))
}

/// `{fork db path}/forks`: where a fork's own forks live.
pub fn children_prefix(fork_db_path: &str) -> (prefix: String)
    ensures
        prefix@ == fork_db_path@ + "/"@ + FORKS_INFIX@,
{
    let mut prefix = String::from_str(fork_db_path);
    prefix.append("/");
    prefix.append(FORKS_INFIX);
    prefix
}

/// `{db path}/manifest`: where a volume's manifests live.
pub fn manifest_prefix(db_path: &str) -> (prefix: String)
    ensures
        prefix@ == db_path@ + "/manifest"@,
{
    let mut prefix = String::from_str(db_path);
    prefix.append("/manifest");
    prefix
}

/// Where a fork branches off.
pub enum BranchFrom {
    /// The last manifest flushed at or before a moment.
    AtTime { secs: i64, nanos: u32 },
    /// A checkpoint that the user named.
    Named { checkpoint_name: String },
    /// A fresh checkpoint of the current state.
    Fresh,
}

/// The same branch point.
pub open spec fn same_source(a: BranchFrom, b: BranchFrom) -> bool {
    match (a, b) {
        (BranchFrom::Named { checkpoint_name: x }, BranchFrom::Named { checkpoint_name: y }) => x@
            == y@,
        _ => a == b,
    }
}

impl BranchFrom {
    /// The same branch point again.
    pub fn copy(&self) -> (copy: BranchFrom)
        ensures
            same_source(copy, *self),
    {
        match self {
            BranchFrom::AtTime { secs, nanos } => BranchFrom::AtTime { secs: *secs, nanos: *nanos },
            BranchFrom::Named { checkpoint_name } => BranchFrom::Named {
                checkpoint_name: checkpoint_name.clone(),
            },
            BranchFrom::Fresh => BranchFrom::Fresh,
        }
    }
}

/// The branch point that a request asks for: a time wins over a checkpoint,
/// and a checkpoint name of white space alone counts as none.
pub open spec fn asks_for(
    source: BranchFrom,
    from_checkpoint: Option<Seq<char>>,
    at: Option<(i64, u32)>,
) -> bool {
    match at {
        Some((secs, nanos)) => source == (BranchFrom::AtTime { secs, nanos }),
        None => match from_checkpoint {
            Some(name) => if trimmed(name).len() == 0 {
                source == BranchFrom::Fresh
            } else {
                match source {
                    BranchFrom::Named { checkpoint_name } => checkpoint_name@ == trimmed(name),
                    _ => false,
                }
            },
            None => source == BranchFrom::Fresh,
        },
    }
}

/// The contents of an optional text.
pub open spec fn opt_text(text: Option<&str>) -> Option<Seq<char>> {
    match text {
        Some(t) => Some(t@),
        None => None,
    }
}

/// The branch point that a request asks for.
pub fn branch_from(from_checkpoint: Option<&str>, at: Option<(i64, u32)>) -> (source: BranchFrom)
    ensures
        asks_for(source, opt_text(from_checkpoint), at),
{
    match at {
        Some((secs, nanos)) => BranchFrom::AtTime { secs, nanos },
        None => match from_checkpoint {
            Some(name) => {
                let name = trim(name);
                if name.is_empty() {
                    BranchFrom::Fresh
                } else {
                    BranchFrom::Named { checkpoint_name: String::from_str(name) }
                }
            },
            None => BranchFrom::Fresh,
        },
    }
}

/// The name of the checkpoint that pins a historical manifest for a fork.
pub open spec fn pitr_name(fork: Seq<char>, secs: i64) -> Seq<char> {
    "pitr-"@ + fork + "-"@ + signed_decimal(secs as int)
}

/// The name of the checkpoint that pins the current state for a fork.
pub open spec fn fresh_name(fork: Seq<char>, unique: Seq<char>) -> Seq<char> {
    "fork-"@ + fork + "-"@ + unique
}

/// The name of the checkpoint that pins a historical manifest for a fork.
pub fn pitr_checkpoint_name(fork: &str, secs: i64) -> (name: String)
    ensures
        name@ == pitr_name(fork@, secs),
{
    let mut name = String::from_str("pitr-");
    name.append(fork);
    name.append("-");
    push_signed_decimal(&mut name, secs);
    name
}

/// The name of the checkpoint that pins the current state for a fork.
pub fn fork_checkpoint_name(fork: &str, unique: &str) -> (name: String)
    ensures
        name@ == fresh_name(fork@, unique@),
{
    let mut name = String::from_str("fork-");
    name.append(fork);
    name.append("-");
    name.append(unique);
    name
}

/// A UUID without hyphens: 32 lower-case hexadecimal digits.
pub open spec fn is_simple_uuid(text: Seq<char>) -> bool {
    text.len() == 32 && forall|i: int|
        0 <= i < text.len() ==> ('0' <= #[trigger] text[i] <= '9') || ('a' <= text[i] <= 'f')
}

/// `uuid::Uuid::new_v4` in its simple form. Which one it is depends on chance.
#[verifier::external_body]
fn random_uuid() -> (text: String)
    ensures
        is_simple_uuid(text@),
{
    uuid::Uuid::new_v4().simple().to_string()
}

/// The resolved branch point of a fork.
pub struct BranchPoint {
    pub checkpoint_id: u128,
    pub checkpoint_name: String,
    /// The fork's first writer epoch: one above the source manifest's, which
    /// the fork's first writable open inherits.
    pub base_epoch: u64,
    /// Whether fork creation owns the checkpoint.
    pub owned: bool,
}

/// A checkpoint: its id and the manifest it pins.
#[derive(Clone, Copy, Debug, PartialEq, Eq, Structural)]
pub struct CheckpointEntry {
    pub id: u128,
    pub manifest_id: u64,
}

/// The manifest that the first checkpoint with this id pins.
pub open spec fn pinned_manifest(list: Seq<CheckpointEntry>, id: u128) -> Option<u64>
    decreases list.len(),
{
    if list.len() == 0 {
        None
    } else if list[0].id == id {
        Some(list[0].manifest_id)
    } else {
        pinned_manifest(list.drop_first(), id)
    }
}

/// The manifest that the checkpoint with this id pins, if the list has it.
pub fn find_checkpoint(list: &Vec<CheckpointEntry>, id: u128) -> (manifest_id: Option<u64>)
    ensures
        manifest_id == pinned_manifest(list@, id),
{
    let mut i: usize = 0;
    assert(list@.skip(0) =~= list@);
    while i < list.len()
        invariant
            i <= list@.len(),
            pinned_manifest(list@, id) == pinned_manifest(list@.skip(i as int), id),
        decreases list@.len() - i,
    {
        assert(list@.skip(i as int)[0] == list@[i as int]);
        assert(list@.skip(i as int).drop_first() =~= list@.skip(i + 1));
        if list[i].id == id {
            return Some(list[i].manifest_id);
        }
        i += 1;
    }
    None
}

/// The resolution of a branch point under way.
pub enum ResolveBranchPoint {
    /// Look up the manifest at this moment.
    FindManifest { checkpoint_name: String, secs: i64, nanos: u32 },
    /// Pin this historical manifest with a checkpoint of this name.
    PinManifest { checkpoint_name: String, manifest_id: u64 },
    /// Make a checkpoint of the current state: under the seal-and-flush
    /// barrier, or else of what is durable already.
    CreateCheckpoint { checkpoint_name: String, barrier: bool },
    /// Look up the checkpoint of this name.
    FindNamed { checkpoint_name: String },
    /// List the checkpoints, to find the manifest that this one pins.
    ListCheckpoints { checkpoint_id: u128, checkpoint_name: String, owned: bool },
    /// Read this manifest's writer epoch.
    ReadManifest { manifest_id: u64, checkpoint_id: u128, checkpoint_name: String, owned: bool },
    Resolved { point: BranchPoint },
    Refused { error: ForkError },
}

impl ResolveBranchPoint {
    /// A resolution of what a request of `fork` asks for has just begun, with
    /// `unique` in the name of a fresh checkpoint.
    pub open spec fn begins(
        self,
        fork: Seq<char>,
        source: BranchFrom,
        barrier: bool,
        unique: Seq<char>,
    ) -> bool {
        match source {
            BranchFrom::AtTime { secs, nanos } => match self {
                ResolveBranchPoint::FindManifest { checkpoint_name, secs: s, nanos: n } => s == secs
                    && n == nanos && checkpoint_name@ == pitr_name(fork, secs),
                _ => false,
            },
            BranchFrom::Named { checkpoint_name } => match self {
                ResolveBranchPoint::FindNamed { checkpoint_name: wanted } => wanted@
                    == checkpoint_name@,
                _ => false,
            },
            BranchFrom::Fresh => match self {
                ResolveBranchPoint::CreateCheckpoint { checkpoint_name, barrier: b } => b == barrier
                    && checkpoint_name@ == fresh_name(fork, unique),
                _ => false,
            },
        }
    }

    /// How far the resolution has come.
    pub open spec fn stage(self) -> nat {
        match self {
            ResolveBranchPoint::FindManifest { .. } => 0,
            ResolveBranchPoint::PinManifest { .. } => 1,
            ResolveBranchPoint::CreateCheckpoint { .. } => 1,
            ResolveBranchPoint::FindNamed { .. } => 1,
            ResolveBranchPoint::ListCheckpoints { .. } => 2,
            ResolveBranchPoint::ReadManifest { .. } => 3,
            ResolveBranchPoint::Resolved { .. } => 4,
            ResolveBranchPoint::Refused { .. } => 4,
        }
    }

    /// Starts from what a request asks for. A fresh checkpoint gets `unique`
    /// into its name.
    pub fn begin_named(fork: &str, source: BranchFrom, barrier: bool, unique: &str) -> (resolve:
        Self)
        ensures
            resolve.begins(fork@, source, barrier, unique@),
    {
        match source {
            BranchFrom::AtTime { secs, nanos } => ResolveBranchPoint::FindManifest {
                checkpoint_name: pitr_checkpoint_name(fork, secs),
                secs,
                nanos,
            },
            BranchFrom::Named { checkpoint_name } => ResolveBranchPoint::FindNamed {
                checkpoint_name,
            },
            BranchFrom::Fresh => ResolveBranchPoint::CreateCheckpoint {
                checkpoint_name: fork_checkpoint_name(fork, unique),
                barrier,
            },
        }
    }

    /// Starts from what a request asks for, with a random name for a fresh
    /// checkpoint.
    pub fn begin(fork: &str, source: BranchFrom, barrier: bool) -> (resolve: Self)
        ensures
            exists|unique: Seq<char>| #[trigger]
                is_simple_uuid(unique) && resolve.begins(fork@, source, barrier, unique),
    {
        let unique = random_uuid();
        assert(is_simple_uuid(unique@));
        ResolveBranchPoint::begin_named(fork, source, barrier, unique.as_str())
    }

    /// The manifest look-up ended.
    pub fn manifest_found(self, found: Option<u64>) -> (next: Self)
        requires
            self is FindManifest,
        ensures
            next.stage() > self.stage(),
            match (self, found) {
                (ResolveBranchPoint::FindManifest { checkpoint_name, .. }, Some(id)) => match next {
                    ResolveBranchPoint::PinManifest { checkpoint_name: name, manifest_id } => name@
                        == checkpoint_name@ && manifest_id == id,
                    _ => false,
                },
                _ => next == (ResolveBranchPoint::Refused { error: ForkError::NoManifestAtTime }),
            },
    {
        match (self, found) {
            (ResolveBranchPoint::FindManifest { checkpoint_name, .. }, Some(manifest_id)) => {
                ResolveBranchPoint::PinManifest { checkpoint_name, manifest_id }
            },
            _ => ResolveBranchPoint::Refused { error: ForkError::NoManifestAtTime },
        }
    }

    /// The checkpoint was made. Fork creation owns it.
    pub fn checkpoint_made(self, id: u128) -> (next: Self)
        requires
            self is PinManifest || self is CreateCheckpoint,
        ensures
            next.stage() > self.stage(),
            match self {
                ResolveBranchPoint::PinManifest { checkpoint_name, manifest_id } => match next {
                    ResolveBranchPoint::ReadManifest {
                        manifest_id: m,
                        checkpoint_id,
                        checkpoint_name: name,
                        owned,
                    } => m == manifest_id && checkpoint_id == id && name@ == checkpoint_name@
                        && owned,
                    _ => false,
                },
                ResolveBranchPoint::CreateCheckpoint { checkpoint_name, .. } => match next {
                    ResolveBranchPoint::ListCheckpoints {
                        checkpoint_id,
                        checkpoint_name: name,
                        owned,
                    } => checkpoint_id == id && name@ == checkpoint_name@ && owned,
                    _ => false,
                },
                _ => true,
            },
    {
        match self {
            ResolveBranchPoint::PinManifest { checkpoint_name, manifest_id } => {
                ResolveBranchPoint::ReadManifest {
                    manifest_id,
                    checkpoint_id: id,
                    checkpoint_name,
                    owned: true,
                }
            },
            ResolveBranchPoint::CreateCheckpoint { checkpoint_name, .. } => {
                ResolveBranchPoint::ListCheckpoints { checkpoint_id: id, checkpoint_name, owned: true }
            },
            other => other,
        }
    }

    /// The look-up of the named checkpoint ended. The user owns it.
    pub fn named_found(self, found: Option<u128>) -> (next: Self)
        requires
            self is FindNamed,
        ensures
            next.stage() > self.stage(),
            match (self, found) {
                (ResolveBranchPoint::FindNamed { checkpoint_name }, Some(id)) => match next {
                    ResolveBranchPoint::ListCheckpoints {
                        checkpoint_id,
                        checkpoint_name: name,
                        owned,
                    } => checkpoint_id == id && name@ == checkpoint_name@ && !owned,
                    _ => false,
                },
                _ => next == (ResolveBranchPoint::Refused { error: ForkError::CheckpointNotFound }),
            },
    {
        match (self, found) {
            (ResolveBranchPoint::FindNamed { checkpoint_name }, Some(checkpoint_id)) => {
                ResolveBranchPoint::ListCheckpoints { checkpoint_id, checkpoint_name, owned: false }
            },
            _ => ResolveBranchPoint::Refused { error: ForkError::CheckpointNotFound },
        }
    }

    /// The checkpoints were listed.
    pub fn listed(self, list: &Vec<CheckpointEntry>) -> (next: Self)
        requires
            self is ListCheckpoints,
        ensures
            next.stage() > self.stage(),
            match self {
                ResolveBranchPoint::ListCheckpoints { checkpoint_id, checkpoint_name, owned } => {
                    match (pinned_manifest(list@, checkpoint_id), next) {
                        (
                            Some(pinned),
                            ResolveBranchPoint::ReadManifest {
                                manifest_id,
                                checkpoint_id: id,
                                checkpoint_name: name,
                                owned: o,
                            },
                        ) => manifest_id == pinned && id == checkpoint_id && name@
                            == checkpoint_name@ && o == owned,
                        (None, ResolveBranchPoint::Refused { error }) => error
                            == ForkError::CheckpointGone,
                        _ => false,
                    }
                },
                _ => true,
            },
    {
        match self {
            ResolveBranchPoint::ListCheckpoints { checkpoint_id, checkpoint_name, owned } => {
                match find_checkpoint(list, checkpoint_id) {
                    Some(manifest_id) => ResolveBranchPoint::ReadManifest {
                        manifest_id,
                        checkpoint_id,
                        checkpoint_name,
                        owned,
                    },
                    None => ResolveBranchPoint::Refused { error: ForkError::CheckpointGone },
                }
            },
            other => other,
        }
    }

    /// The manifest was read: its writer epoch, if it exists.
    pub fn manifest_read(self, writer_epoch: Option<u64>) -> (next: Self)
        requires
            self is ReadManifest,
            writer_epoch is Some ==> writer_epoch->0 < u64::MAX,
        ensures
            next.stage() > self.stage(),
            match (self, writer_epoch) {
                (
                    ResolveBranchPoint::ReadManifest { checkpoint_id, checkpoint_name, owned, .. },
                    Some(epoch),
                ) => match next {
                    ResolveBranchPoint::Resolved { point } => point.checkpoint_id == checkpoint_id
                        && point.checkpoint_name@ == checkpoint_name@ && point.base_epoch == epoch
                        + 1 && point.owned == owned,
                    _ => false,
                },
                _ => next == (ResolveBranchPoint::Refused { error: ForkError::ManifestNotFound }),
            },
    {
        match (self, writer_epoch) {
            (
                ResolveBranchPoint::ReadManifest { checkpoint_id, checkpoint_name, owned, .. },
                Some(epoch),
            ) => ResolveBranchPoint::Resolved {
                point: BranchPoint { checkpoint_id, checkpoint_name, base_epoch: epoch + 1, owned },
            },
            _ => ResolveBranchPoint::Refused { error: ForkError::ManifestNotFound },
        }
    }
}

/// A name is a fork name exactly if it has a character and every one of its
/// characters is an ASCII letter, an ASCII digit, `-`, `_` or `.`. An empty name
/// and a name with another character are refused apart.
pub proof fn law_fork_names(name: Seq<char>)
    ensures
        fork_name_error(name) is None <==> name.len() > 0 && forall|i: int|
            0 <= i < name.len() ==> {
                ||| 'a' <= #[trigger] name[i] <= 'z'
                ||| 'A' <= name[i] <= 'Z'
                ||| '0' <= name[i] <= '9'
                ||| name[i] == '-'
                ||| name[i] == '_'
                ||| name[i] == '.'
            },
        fork_name_error(name) == Some(ForkError::NameEmpty) <==> name.len() == 0,
        fork_name_error(name) is None || fork_name_error(name) == Some(ForkError::NameEmpty)
            || fork_name_error(name) == Some(ForkError::NameInvalid),
{
}

/// A request with a time branches off at that time, whatever checkpoint it names
/// beside it.
pub proof fn law_time_wins(
    source: BranchFrom,
    from_checkpoint: Option<Seq<char>>,
    secs: i64,
    nanos: u32,
)
    requires
        asks_for(source, from_checkpoint, Some((secs, nanos))),
    ensures
        source == (BranchFrom::AtTime { secs, nanos }),
{
}

/// Without a time, a request branches off at the checkpoint that it names, white
/// space around the name aside, and at the current state where it names none or
/// white space alone.
pub proof fn law_checkpoint_name_counts_trimmed(
    source: BranchFrom,
    from_checkpoint: Option<Seq<char>>,
)
    requires
        asks_for(source, from_checkpoint, None),
    ensures
        match source {
            BranchFrom::AtTime { .. } => false,
            BranchFrom::Named { checkpoint_name } => from_checkpoint is Some && checkpoint_name@
                == trimmed(from_checkpoint->0) && checkpoint_name@.len() > 0,
            BranchFrom::Fresh => from_checkpoint is None || trimmed(from_checkpoint->0).len() == 0,
        },
{
}

/// The names of the checkpoints that fork creation makes begin with what they are
/// for and the fork's name, and end in the moment or the unique part.
pub proof fn law_checkpoint_names(fork: Seq<char>, secs: i64, unique: Seq<char>)
    ensures
        pitr_name(fork, secs) == seq!['p', 'i', 't', 'r', '-'] + fork + seq!['-']
            + signed_decimal(secs as int),
        fresh_name(fork, unique) == seq!['f', 'o', 'r', 'k', '-'] + fork + seq!['-'] + unique,
{
    reveal_strlit("pitr-");
    reveal_strlit("fork-");
    reveal_strlit("-");
    assert("pitr-"@ =~= seq!['p', 'i', 't', 'r', '-']);
    assert("fork-"@ =~= seq!['f', 'o', 'r', 'k', '-']);
    assert("-"@ =~= seq!['-']);
}

/// The manifest that a checkpoint pins is that of the first entry with its id,
/// and there is none exactly if no entry has the id.
pub proof fn law_first_entry_pins(list: Seq<CheckpointEntry>, id: u128)
    ensures
        match pinned_manifest(list, id) {
            Some(manifest_id) => exists|i: int|
                0 <= i < list.len() && #[trigger] list[i] == (CheckpointEntry { id, manifest_id })
                    && forall|j: int| 0 <= j < i ==> (#[trigger] list[j]).id != id,
            None => forall|j: int| 0 <= j < list.len() ==> (#[trigger] list[j]).id != id,
        },
    decreases list.len(),
{
    if list.len() > 0 {
        let rest = list.drop_first();
        law_first_entry_pins(rest, id);
        assert(forall|j: int| 0 < j < list.len() ==> #[trigger] list[j] == rest[j - 1]);
        if list[0].id == id {
            assert(list[0] == (CheckpointEntry { id, manifest_id: list[0].manifest_id }));
        } else {
            match pinned_manifest(rest, id) {
                Some(manifest_id) => {
                    let i = choose|i: int|
                        0 <= i < rest.len() && #[trigger] rest[i] == (CheckpointEntry {
                            id,
                            manifest_id,
                        }) && forall|j: int| 0 <= j < i ==> (#[trigger] rest[j]).id != id;
                    assert(list[i + 1] == rest[i]);
                },
                None => {},
            }
        }
    }
}

/// What a resolution begins with: at a time the look-up of the manifest at that
/// very time, with the fork's checkpoint for it; at a named checkpoint the look-up
/// of that name; and at the current state a checkpoint under the barrier asked
/// for.
pub proof fn law_resolution_begins(
    resolve: ResolveBranchPoint,
    fork: Seq<char>,
    source: BranchFrom,
    wants_barrier: bool,
    unique: Seq<char>,
)
    requires
        resolve.begins(fork, source, wants_barrier, unique),
    ensures
        match resolve {
            ResolveBranchPoint::FindManifest { checkpoint_name, secs, nanos } => source == (
            BranchFrom::AtTime { secs, nanos }) && checkpoint_name@ == pitr_name(fork, secs),
            ResolveBranchPoint::FindNamed { checkpoint_name } => match source {
                BranchFrom::Named { checkpoint_name: name } => checkpoint_name@ == name@,
                _ => false,
            },
            ResolveBranchPoint::CreateCheckpoint { checkpoint_name, barrier } => source
                == BranchFrom::Fresh && barrier == wants_barrier && checkpoint_name@ == fresh_name(
                fork,
                unique,
            ),
            _ => false,
        },
{
}

/// A fork's marker lies directly under the fork's db path, so two forks have
/// different markers.
pub proof fn law_marker_lies_under_its_fork(home: Seq<char>, other: Seq<char>)
    requires
        home.len() > 0,
        other.len() > 0,
    ensures
        marker_of(home) == home + "/.zerofs_fork_pending.json"@,
        marker_of(home) == marker_of(other) ==> home == other,
{
    let file = "/.zerofs_fork_pending.json"@;
    reveal_strlit("/.zerofs_fork_pending.json");
    reveal_strlit(".zerofs_fork_pending.json");
    assert(file =~= seq!['/'] + ".zerofs_fork_pending.json"@);
    assert(marker_of(home) =~= home + file);
    assert(marker_of(other) =~= other + file);
    if marker_of(home) == marker_of(other) {
        assert(home.len() == other.len());
        assert(home =~= marker_of(home).subrange(0, home.len() as int));
        assert(other =~= marker_of(other).subrange(0, other.len() as int));
    }
}

/// A fork's registry row: `meta`, 0x0b and the name's bytes.
pub proof fn law_fork_registry_bytes(name: Seq<char>)
    ensures
        fork_registry_row(name) == seq![0x6du8, 0x65u8, 0x74u8, 0x61u8, 0x0bu8] + encode_utf8(
            name,
        ),
{
    law_key_bytes(0, KeyPrefix::ForkRegistry, encode_utf8(name));
}

} // verus!
