//! Fork lineage metadata.
//!
//! A fork is a writable clone of its parent volume. Segment keys embed the
//! writer epoch, so a fork can tell which volume wrote a segment: epochs at or
//! above its base epoch are its own, older ones belong to the nearest ancestor
//! whose base epoch does not exceed them.

use crate::blob::bytes_seq;
use crate::record::{
    frame_record, payload_seq, record_bytes, record_payload, unframe_record, RecordError,
};
use bytes::Bytes;
use vstd::prelude::*;
use vstd::string::StringExecFns;

verus! {

/// Infix under a volume's db path that holds its direct forks.
pub const FORKS_INFIX: &'static str = "forks";

/// A volume of a lineage and the first writer epoch of its own.
#[derive(Debug, Clone)]
pub struct ForkAncestor {
    pub db_path: String,
    pub base_epoch: u64,
}

/// The lineage record of a fork.
#[derive(Debug, Clone)]
pub struct ForkInfo {
    pub name: String,
    pub parent_db_path: String,
    /// First writer epoch of this fork; older epochs belong to ancestors.
    pub base_epoch: u64,
    pub created_at: u64,
    /// Ancestors ordered root-first; the last one is the direct parent.
    pub ancestors: Vec<ForkAncestor>,
}

/// The contents of an ancestor: db path and base epoch.
pub type AncestorView = (Seq<char>, u64);

/// The contents of a lineage record.
pub struct ForkInfoView {
    pub name: Seq<char>,
    pub parent_db_path: Seq<char>,
    pub base_epoch: u64,
    pub created_at: u64,
    pub ancestors: Seq<AncestorView>,
}

impl View for ForkAncestor {
    type V = AncestorView;

    open spec fn view(&self) -> AncestorView {
        (self.db_path@, self.base_epoch)
    }
}

/// The contents of a list of ancestors.
pub open spec fn ancestors_view(ancestors: Seq<ForkAncestor>) -> Seq<AncestorView> {
    ancestors.map_values(|a: ForkAncestor| a@)
}

impl View for ForkInfo {
    type V = ForkInfoView;

    open spec fn view(&self) -> ForkInfoView {
        ForkInfoView {
            name: self.name@,
            parent_db_path: self.parent_db_path@,
            base_epoch: self.base_epoch,
            created_at: self.created_at,
            ancestors: ancestors_view(self.ancestors@),
        }
    }
}

/// `{parent}/forks/{name}`.
pub open spec fn fork_db_path(parent_db_path: Seq<char>, name: Seq<char>) -> Seq<char> {
    parent_db_path + "/"@ + FORKS_INFIX@ + "/"@ + name
}

/// A copy of a list of ancestors.
pub(crate) fn copy_ancestors(ancestors: &Vec<ForkAncestor>) -> (copy: Vec<ForkAncestor>)
    ensures
        ancestors_view(copy@) == ancestors_view(ancestors@),
{
    let mut copy: Vec<ForkAncestor> = Vec::new();
    let mut i: usize = 0;
    while i < ancestors.len()
        invariant
            i <= ancestors@.len(),
            ancestors_view(copy@) =~= ancestors_view(ancestors@).subrange(0, i as int),
        decreases ancestors@.len() - i,
    {
        let ghost before = ancestors_view(copy@);
        copy.push(
            ForkAncestor {
                db_path: ancestors[i].db_path.clone(),
                base_epoch: ancestors[i].base_epoch,
            },
        );
        assert(ancestors_view(copy@) =~= before.push(ancestors@[i as int]@));
        i += 1;
    }
    assert(ancestors_view(ancestors@).subrange(0, i as int) =~= ancestors_view(ancestors@));
    copy
}

impl ForkInfo {
    /// The same record again.
    pub fn copy(&self) -> (copy: ForkInfo)
        ensures
            copy@ == self@,
    {
        ForkInfo {
            name: self.name.clone(),
            parent_db_path: self.parent_db_path.clone(),
            base_epoch: self.base_epoch,
            created_at: self.created_at,
            ancestors: copy_ancestors(&self.ancestors),
        }
    }

    /// Where the fork `name` of the volume at `parent_db_path` lives.
    pub fn db_path(parent_db_path: &str, name: &str) -> (path: String)
        ensures
            path@ == fork_db_path(parent_db_path@, name@),
    {
        let mut path = String::from_str(parent_db_path);
        path.append("/");
        path.append(FORKS_INFIX);
        path.append("/");
        path.append(name);
        path
    }

    /// The stored form of a record, from its JSON.
    pub fn encode(json: &[u8]) -> (data: Bytes)
        ensures
            bytes_seq(data) == record_bytes(json@),
    {
        frame_record(json)
    }

    /// The JSON of a stored record.
    pub fn decode(data: &[u8]) -> (json: Result<&[u8], RecordError>)
        ensures
            payload_seq(json) == record_payload(data@),
    {
        unframe_record(data)
    }

    /// The ancestors that a fork of the volume at `parent_db_path` records:
    /// those of the parent, where it is a fork itself, and the parent with its
    /// own base epoch, which is zero for a volume that is no fork.
    pub fn child_ancestors(parent: Option<&ForkInfo>, parent_db_path: &str) -> (ancestors: Vec<
        ForkAncestor,
    >)
        ensures
            ancestors_view(ancestors@) == child_ancestors_view(
                match parent {
                    Some(info) => Some(info@),
                    None => None,
                },
                parent_db_path@,
            ),
    {
        let mut ancestors: Vec<ForkAncestor> = match parent {
            Some(info) => copy_ancestors(&info.ancestors),
            None => Vec::new(),
        };
        let base_epoch: u64 = match parent {
            Some(info) => info.base_epoch,
            None => 0,
        };
        let ghost before = ancestors_view(ancestors@);
        ancestors.push(ForkAncestor { db_path: String::from_str(parent_db_path), base_epoch });
        assert(ancestors_view(ancestors@) =~= before.push((parent_db_path@, base_epoch)));
        assert(parent is None ==> before =~= Seq::empty());
        ancestors
    }
}

/// The ancestors that a fork records, over contents.
pub open spec fn child_ancestors_view(
    parent: Option<ForkInfoView>,
    parent_db_path: Seq<char>,
) -> Seq<AncestorView> {
    match parent {
        Some(info) => info.ancestors.push((parent_db_path, info.base_epoch)),
        None => seq![(parent_db_path, 0u64)],
    }
}

/// The ancestors of a lineage record stand root-first, each with a greater
/// base epoch than the one before.
pub open spec fn epochs_ascend(ancestors: Seq<AncestorView>) -> bool {
    forall|i: int, j: int|
        0 <= i < j < ancestors.len() ==> (#[trigger] ancestors[i]).1 < (#[trigger] ancestors[j]).1
}

/// A lineage record's epochs are in order: the ancestors' base epochs ascend, and
/// the fork's own lies above them.
pub open spec fn lineage_ascends(info: ForkInfoView) -> bool {
    &&& epochs_ascend(info.ancestors)
    &&& forall|i: int| 0 <= i < info.ancestors.len() ==> (#[trigger] info.ancestors[i]).1
        < info.base_epoch
}

/// The base epoch of a volume: zero where it is no fork.
pub open spec fn base_epoch_of(volume: Option<ForkInfoView>) -> u64 {
    match volume {
        Some(info) => info.base_epoch,
        None => 0,
    }
}

/// Forking keeps the ancestors' epochs in order: if the parent's lineage ascends,
/// or it is no fork, so do the ancestors of its forks, and none of them has a
/// base epoch above the parent's.
pub proof fn law_child_ancestors_ascend(parent: Option<ForkInfoView>, parent_db_path: Seq<char>)
    requires
        parent is Some ==> lineage_ascends(parent->0),
    ensures
        epochs_ascend(child_ancestors_view(parent, parent_db_path)),
        forall|i: int|
            0 <= i < child_ancestors_view(parent, parent_db_path).len() ==> (
            #[trigger] child_ancestors_view(parent, parent_db_path)[i]).1 <= base_epoch_of(parent),
{
    let child = child_ancestors_view(parent, parent_db_path);
    assert forall|i: int| 0 <= i < child.len() implies (#[trigger] child[i]).1 <= base_epoch_of(
        parent,
    ) by {
        if i < child.len() - 1 {
            assert(child[i] == parent->0.ancestors[i]);
        }
    }
    assert forall|i: int, j: int| 0 <= i < j < child.len() implies (#[trigger] child[i]).1 < (
    #[trigger] child[j]).1 by {
        assert(child[i] == parent->0.ancestors[i]);
        if j < child.len() - 1 {
            assert(child[j] == parent->0.ancestors[j]);
        }
    }
}

/// The text has no slash.
pub open spec fn no_slash(text: Seq<char>) -> bool {
    forall|i: int| 0 <= i < text.len() ==> #[trigger] text[i] != '/'
}

/// Sibling forks have no object in common: no path under one fork's db path is
/// under another's, even where one name begins with the other.
pub proof fn law_sibling_forks_apart(
    parent: Seq<char>,
    a: Seq<char>,
    rest_a: Seq<char>,
    b: Seq<char>,
    rest_b: Seq<char>,
)
    requires
        a != b,
        no_slash(a),
        no_slash(b),
    ensures
        fork_db_path(parent, a).push('/') + rest_a != fork_db_path(parent, b).push('/') + rest_b,
{
    let head = parent + "/"@ + FORKS_INFIX@ + "/"@;
    let x = fork_db_path(parent, a).push('/') + rest_a;
    let y = fork_db_path(parent, b).push('/') + rest_b;
    let n = head.len() as int;
    if x == y {
        assert(fork_db_path(parent, a) == head + a);
        assert(fork_db_path(parent, b) == head + b);
        if a.len() < b.len() {
            assert(x[n + a.len()] == '/');
            assert(y[n + a.len()] == b[a.len() as int]);
        } else if b.len() < a.len() {
            assert(y[n + b.len()] == '/');
            assert(x[n + b.len()] == a[b.len() as int]);
        } else {
            assert forall|i: int| 0 <= i < a.len() implies a[i] == b[i] by {
                assert(x[n + i] == a[i]);
                assert(y[n + i] == b[i]);
            }
            assert(a =~= b);
        }
    }
}

/// The ancestors of a fork of a fork are its parent's, each with its path and its
/// base epoch as they were and in the same order, and then the parent itself.
pub proof fn law_child_ancestors_extend_the_parents(
    parent: ForkInfoView,
    parent_db_path: Seq<char>,
    i: int,
)
    ensures
        ({
            let child = child_ancestors_view(Some(parent), parent_db_path);
            &&& child.len() == parent.ancestors.len() + 1
            &&& 0 <= i < parent.ancestors.len() ==> child[i].0 == parent.ancestors[i].0
                && child[i].1 == parent.ancestors[i].1
            &&& child.last().0 == parent_db_path
            &&& child.last().1 == parent.base_epoch
        }),
{
}

/// The only ancestor of a fork of a volume that is no fork is that volume, whose
/// epochs are its own from the first.
pub proof fn law_first_fork_has_one_ancestor(parent_db_path: Seq<char>)
    ensures
        child_ancestors_view(None, parent_db_path).len() == 1,
        child_ancestors_view(None, parent_db_path)[0].0 == parent_db_path,
        child_ancestors_view(None, parent_db_path)[0].1 == 0,
{
}

/// A fork lives under its parent: the parent's path, `forks` and the name, each
/// after a slash.
pub proof fn law_fork_lives_under_its_parent(parent_db_path: Seq<char>, name: Seq<char>)
    ensures
        fork_db_path(parent_db_path, name) == parent_db_path + seq![
            '/',
            'f',
            'o',
            'r',
            'k',
            's',
            '/',
        ] + name,
{
    reveal_strlit("/");
    reveal_strlit("forks");
    assert(fork_db_path(parent_db_path, name) =~= parent_db_path + seq![
        '/',
        'f',
        'o',
        'r',
        'k',
        's',
        '/',
    ] + name);
}

/// The contents of a record are its fields.
pub proof fn law_record_contents(info: ForkInfo, i: int)
    ensures
        info@.name == info.name@,
        info@.parent_db_path == info.parent_db_path@,
        info@.base_epoch == info.base_epoch,
        info@.created_at == info.created_at,
        info@.ancestors.len() == info.ancestors@.len(),
        0 <= i < info.ancestors@.len() ==> info@.ancestors[i].0 == info.ancestors@[i].db_path@
            && info@.ancestors[i].1 == info.ancestors@[i].base_epoch,
{
}

/// A record's contents are its own fields, with each ancestor in its place.
pub proof fn law_record_fields(info: ForkInfo)
    ensures
        info@.name == info.name@,
        info@.parent_db_path == info.parent_db_path@,
        info@.base_epoch == info.base_epoch,
        info@.created_at == info.created_at,
        info@.ancestors.len() == info.ancestors@.len(),
        forall|i: int|
            0 <= i < info.ancestors@.len() ==> (#[trigger] info@.ancestors[i]).0
                == info.ancestors@[i].db_path@ && info@.ancestors[i].1
                == info.ancestors@[i].base_epoch,
{
}

} // verus!
