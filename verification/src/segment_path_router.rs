//! Segment read-path routing across fork lineage.
//!
//! Segment objects live under the db path of the volume that wrote them. A
//! fork's pointers also name segments of its ancestors, so a read resolves
//! each `segments/{shard}/{epoch}/{counter}` key by its epoch: at or above the
//! fork's base epoch it is the fork's own, anything older belongs to the
//! nearest ancestor whose base epoch does not exceed it. Writes, deletes and
//! lists always stay on the local volume.

use crate::fork_info::{
    ancestors_view, child_ancestors_view, epochs_ascend, law_child_ancestors_ascend,
    law_child_ancestors_extend_the_parents, lineage_ascends, AncestorView, ForkAncestor, ForkInfo,
    ForkInfoView,
};
use crate::path::{
    is_plain_part, join_slashes, joined, lemma_split_join, lemma_split_nonempty, named_segments,
    path_after, path_extend, path_from, path_from_text, path_parts, path_raw, path_text, segments,
    split_slashes, text_after, under,
};
use crate::sorting::{
    law_sort_is_in_order, law_sort_keeps_items, lemma_inserted_at, lemma_sorted_stays,
    stably_sorted, total_order,
};
use crate::text::{decimal, parse_u64, parsed_u64, push_decimal, same_text};
use object_store::path::Path;
use vstd::prelude::*;
use vstd::string::StringExecFns;

verus! {

/// An ancestor of the router: base epoch and the text of its db path.
pub type Owner = (u64, Seq<char>);

/// Owners in order of their base epochs.
pub open spec fn epoch_order() -> spec_fn(Owner, Owner) -> bool {
    |a: Owner, b: Owner| a.0 <= b.0
}

/// The ancestors of a lineage record as owners.
pub open spec fn owners_of(ancestors: Seq<AncestorView>) -> Seq<Owner> {
    ancestors.map_values(|a: AncestorView| (a.1, path_from_text(a.0)))
}

/// The ancestors of a lineage record as owners, with their db paths as they
/// stand.
pub open spec fn plain_owners_of(ancestors: Seq<AncestorView>) -> Seq<Owner> {
    ancestors.map_values(|a: AncestorView| (a.1, a.0))
}

/// Every ancestor's db path has only segments that need no encoding.
pub open spec fn plain_lineage(ancestors: Seq<AncestorView>) -> bool {
    forall|i: int| 0 <= i < ancestors.len() ==> is_plain_path((#[trigger] ancestors[i]).0)
}

/// How many leading owners have a base epoch that does not exceed `epoch`.
pub open spec fn leading(owners: Seq<Owner>, epoch: u64) -> nat
    decreases owners.len(),
{
    if owners.len() == 0 || owners[0].0 > epoch {
        0
    } else {
        1 + leading(owners.drop_first(), epoch)
    }
}

/// What a router routes by.
pub struct Routes {
    pub own_prefix: Seq<char>,
    pub own_base_epoch: u64,
    /// Ancestors, ascending by base epoch.
    pub ancestors: Seq<Owner>,
}

impl Routes {
    /// The db path of the volume that wrote the segments of `epoch`. Older
    /// than every base epoch means that the root ancestor wrote it.
    pub open spec fn owner(self, epoch: u64) -> Seq<char> {
        if epoch >= self.own_base_epoch || self.ancestors.len() == 0 {
            self.own_prefix
        } else {
            let n = leading(self.ancestors, epoch);
            self.ancestors[if n == 0 {
                0
            } else {
                n - 1
            }].1
        }
    }

    /// The db path under which a read finds `path`.
    pub open spec fn prefix_for(self, path: Seq<char>) -> Seq<char> {
        match segment_epoch(path) {
            Some(epoch) => self.owner(epoch),
            None => self.own_prefix,
        }
    }

    /// Where a read of `path` goes.
    pub open spec fn resolved(self, path: Seq<char>) -> Seq<char> {
        under(self.prefix_for(path), named_segments(path))
    }

    /// Where a write, delete or list of `path` goes.
    pub open spec fn local(self, path: Seq<char>) -> Seq<char> {
        under(self.own_prefix, named_segments(path))
    }

    /// The path by which the volume knows what is stored at `stored`: without
    /// the local db path. What lies elsewhere keeps its path.
    pub open spec fn relative(self, stored: Seq<char>) -> Seq<char> {
        match text_after(stored, self.own_prefix) {
            Some(rest) => join_slashes(named_segments(rest)),
            None => stored,
        }
    }
}

/// The epoch in a `segments/{shard}/{epoch}/{counter}` key.
pub open spec fn segment_epoch(path: Seq<char>) -> Option<u64> {
    let parts = segments(path);
    if parts.len() >= 3 && parts[0] == "segments"@ {
        parsed_u64(parts[2], 16)
    } else {
        None
    }
}

/// Routes `segments/` keys to the db path of the volume that wrote them, and
/// every other path under the local volume's db path.
pub struct SegmentPathRouter {
    own_prefix: Path,
    own_base_epoch: u64,
    ancestors: Vec<(u64, Path)>,
}

/// The contents of a list of ancestors.
pub open spec fn owners_view(ancestors: Seq<(u64, Path)>) -> Seq<Owner> {
    ancestors.map_values(|a: (u64, Path)| (a.0, path_raw(a.1)))
}

impl View for SegmentPathRouter {
    type V = Routes;

    closed spec fn view(&self) -> Routes {
        Routes {
            own_prefix: path_raw(self.own_prefix),
            own_base_epoch: self.own_base_epoch,
            ancestors: owners_view(self.ancestors@),
        }
    }
}

/// The ancestors as owners, ascending by base epoch; equal base epochs keep
/// their order.
fn sorted_owners(ancestors: &Vec<ForkAncestor>) -> (owners: Vec<(u64, Path)>)
    ensures
        owners_view(owners@) == stably_sorted(
            owners_of(ancestors_view(ancestors@)),
            epoch_order(),
        ),
        plain_lineage(ancestors_view(ancestors@)) ==> owners_of(ancestors_view(ancestors@))
            == plain_owners_of(ancestors_view(ancestors@)),
{
    let ghost plain = plain_lineage(ancestors_view(ancestors@));
    let ghost as_they_stand = plain_owners_of(ancestors_view(ancestors@));
    let ghost all = owners_of(ancestors_view(ancestors@));
    let mut owners: Vec<(u64, Path)> = Vec::new();
    let mut i: usize = 0;
    assert(owners_view(owners@) =~= stably_sorted(all.subrange(0, 0), epoch_order()));
    while i < ancestors.len()
        invariant
            i <= ancestors@.len(),
            all == owners_of(ancestors_view(ancestors@)),
            all.len() == ancestors@.len(),
            owners@.len() == i,
            plain == plain_lineage(ancestors_view(ancestors@)),
            as_they_stand == plain_owners_of(ancestors_view(ancestors@)),
            plain ==> forall|k: int| 0 <= k < i ==> #[trigger] all[k] == as_they_stand[k],
            owners_view(owners@) == stably_sorted(all.subrange(0, i as int), epoch_order()),
        decreases ancestors@.len() - i,
    {
        let epoch: u64 = ancestors[i].base_epoch;
        let path = path_from(ancestors[i].db_path.as_str());
        let ghost sorted = owners_view(owners@);
        let ghost x = all[i as int];
        assert(x == (epoch, path_raw(path)));
        assert(ancestors_view(ancestors@)[i as int] == ancestors@[i as int]@);
        let mut at: usize = owners.len();
        while at > 0 && owners[at - 1].0 > epoch
            invariant
                at <= owners@.len(),
                sorted == owners_view(owners@),
                x.0 == epoch,
                forall|k: int| at <= k < sorted.len() ==> !epoch_order()(#[trigger] sorted[k], x),
            decreases at,
        {
            assert(sorted[at - 1].0 == owners@[at - 1].0);
            at -= 1;
        }
        proof {
            if at > 0 {
                assert(sorted[at - 1].0 == owners@[at - 1].0);
            }
            lemma_inserted_at(sorted, x, epoch_order(), at as int);
            let longer = all.subrange(0, i + 1);
            assert(longer.drop_last() =~= all.subrange(0, i as int));
            assert(longer.last() == x);
        }
        owners.insert(at, (epoch, path));
        assert(owners_view(owners@) =~= sorted.insert(at as int, x));
        i += 1;
    }
    assert(all.subrange(0, i as int) =~= all);
    assert(plain ==> all =~= as_they_stand);
    owners
}

/// A path's text whose segments need no encoding.
pub open spec fn is_plain_path(path: Seq<char>) -> bool {
    forall|i: int|
        0 <= i < split_slashes(path).len() ==> is_plain_part(#[trigger] split_slashes(path)[i])
}

/// Segments under a path are the path, a slash, and the segments; under the
/// root, the segments alone.
proof fn lemma_under(prefix: Seq<char>, parts: Seq<Seq<char>>)
    requires
        forall|i: int| 0 <= i < parts.len() ==> (#[trigger] parts[i]).len() > 0,
    ensures
        parts.len() > 0 ==> join_slashes(parts).len() > 0,
        parts.len() > 0 ==> under(prefix, parts) == joined(prefix, join_slashes(parts)),
    decreases parts.len(),
{
    if parts.len() > 0 {
        let init = parts.drop_last();
        assert(parts[parts.len() - 1].len() > 0);
        assert forall|i: int| 0 <= i < init.len() implies (#[trigger] init[i]).len() > 0 by {
            assert(init[i] == parts[i]);
        }
        lemma_under(prefix, init);
        if init.len() == 0 {
            assert(under(prefix, init) == prefix);
            assert(join_slashes(parts) == parts[0]);
        } else {
            assert(under(prefix, parts) =~= joined(prefix, join_slashes(parts)));
        }
    }
}

/// The text of a path: the root's is empty, and any other has no empty piece.
pub open spec fn is_path_text(text: Seq<char>) -> bool {
    text.len() == 0 || forall|i: int|
        0 <= i < split_slashes(text).len() ==> (#[trigger] split_slashes(text)[i]).len() > 0
}

/// Where a path lies under another: the one, a slash, and the other; the root
/// lies at the path itself.
pub open spec fn placed(prefix: Seq<char>, path: Seq<char>) -> Seq<char> {
    if path.len() == 0 {
        prefix
    } else {
        joined(prefix, path)
    }
}

/// Every segment of a path is named, and together they are its text.
proof fn lemma_path_text(text: Seq<char>)
    requires
        is_path_text(text),
    ensures
        named_segments(text) == segments(text),
        join_slashes(segments(text)) == text,
        forall|i: int| 0 <= i < segments(text).len() ==> (#[trigger] segments(text)[i]).len() > 0,
        segments(text).len() == 0 <==> text.len() == 0,
{
    let pieces = split_slashes(text);
    lemma_split_nonempty(text);
    lemma_split_join(text);
    if text.len() == 0 {
        assert(pieces.last().len() == 0);
        assert(segments(text) =~= Seq::empty());
    } else {
        assert(pieces[pieces.len() - 1].len() > 0);
    }
    lemma_filter_all(segments(text), |segment: Seq<char>| segment.len() > 0);
}

/// The segments of a path under another.
proof fn lemma_placed(prefix: Seq<char>, path: Seq<char>)
    requires
        is_path_text(path),
    ensures
        under(prefix, named_segments(path)) == placed(prefix, path),
{
    lemma_path_text(path);
    lemma_under(prefix, segments(path));
}

/// Nothing is lost where every item satisfies the predicate.
proof fn lemma_filter_all<A>(items: Seq<A>, pred: spec_fn(A) -> bool)
    requires
        forall|i: int| 0 <= i < items.len() ==> pred(#[trigger] items[i]),
    ensures
        items.filter(pred) == items,
    decreases items.len(),
{
    reveal(Seq::filter);
    if items.len() > 0 {
        lemma_filter_all(items.drop_last(), pred);
        assert(pred(items[items.len() - 1]));
        assert(items.drop_last().push(items.last()) =~= items);
    } else {
        assert(items.filter(pred) =~= items);
    }
}

/// `path`'s segments under `prefix`.
fn join(prefix: &Path, path: &Path) -> (out: Path)
    ensures
        path_raw(out) == under(path_raw(*prefix), named_segments(path_raw(*path))),
        is_path_text(path_raw(*path)) ==> path_raw(out) == placed(
            path_raw(*prefix),
            path_raw(*path),
        ),
{
    proof {
        if is_path_text(path_raw(*path)) {
            lemma_placed(path_raw(*prefix), path_raw(*path));
        }
    }
    path_extend(prefix.clone(), path)
}

impl SegmentPathRouter {
    /// A router for the volume at `own_prefix`. Without a lineage, everything
    /// resolves under `own_prefix`.
    pub fn new(own_prefix: Path, fork_info: Option<&ForkInfo>) -> (router: Self)
        ensures
            router@ == routes_of(
                path_raw(own_prefix),
                match fork_info {
                    Some(info) => Some(info@),
                    None => None,
                },
            ),
            fork_info is Some && plain_lineage(fork_info->0@.ancestors) ==> router@.ancestors
                == stably_sorted(plain_owners_of(fork_info->0@.ancestors), epoch_order()),
    {
        match fork_info {
            Some(info) => SegmentPathRouter {
                own_prefix,
                own_base_epoch: info.base_epoch,
                ancestors: sorted_owners(&info.ancestors),
            },
            None => {
                let router = SegmentPathRouter {
                    own_prefix,
                    own_base_epoch: 0,
                    ancestors: Vec::new(),
                };
                assert(router@.ancestors =~= Seq::empty());
                router
            },
        }
    }

    /// The router in one line: own db path, base epoch, number of ancestors.
    pub fn describe(&self) -> (text: String)
        ensures
            text@ == "SegmentPathRouter("@ + self@.own_prefix + ", base_epoch="@ + decimal(
                self@.own_base_epoch as nat,
            ) + ", ancestors="@ + decimal(self@.ancestors.len()) + ")"@,
    {
        let mut text = String::from_str("SegmentPathRouter(");
        text.append(path_text(&self.own_prefix));
        text.append(", base_epoch=");
        push_decimal(&mut text, self.own_base_epoch);
        text.append(", ancestors=");
        push_decimal(&mut text, self.ancestors.len() as u64);
        text.append(")");
        text
    }

    /// The db path that owns the segments written at `epoch`.
    pub fn owner_prefix(&self, epoch: u64) -> (owner: &Path)
        ensures
            path_raw(*owner) == self@.owner(epoch),
    {
        if epoch >= self.own_base_epoch || self.ancestors.len() == 0 {
            return &self.own_prefix;
        }
        let ghost owners = self@.ancestors;
        let mut n: usize = 0;
        assert(owners.skip(0) =~= owners);
        while n < self.ancestors.len() && self.ancestors[n].0 <= epoch
            invariant
                n <= owners.len(),
                owners == owners_view(self.ancestors@),
                owners.len() == self.ancestors@.len(),
                leading(owners, epoch) == n + leading(owners.skip(n as int), epoch),
            decreases owners.len() - n,
        {
            assert(owners.skip(n as int)[0] == owners[n as int]);
            assert(owners.skip(n as int).drop_first() =~= owners.skip(n + 1));
            n += 1;
        }
        proof {
            if n < owners.len() {
                assert(owners.skip(n as int)[0] == owners[n as int]);
            }
        }
        let at: usize = if n == 0 {
            0
        } else {
            n - 1
        };
        assert(owners[at as int] == (self.ancestors@[at as int].0, path_raw(
            self.ancestors@[at as int].1,
        )));
        &self.ancestors[at].1
    }

    /// The epoch in a `segments/{shard}/{epoch}/{counter}` key.
    pub fn key_epoch(path: &Path) -> (epoch: Option<u64>)
        ensures
            epoch == segment_epoch(path_raw(*path)),
    {
        let parts = path_parts(path);
        let ghost all = segments(path_raw(*path));
        assert(all.len() == parts@.len());
        if parts.len() < 3 {
            return None;
        }
        assert(all[0] == parts@[0]@ && all[2] == parts@[2]@);
        if !same_text(parts[0].as_str(), "segments") {
            return None;
        }
        parse_u64(parts[2].as_str(), 16)
    }

    /// Where a read of `path` goes.
    pub fn resolve(&self, path: &Path) -> (target: Path)
        ensures
            path_raw(target) == self@.resolved(path_raw(*path)),
            is_path_text(path_raw(*path)) ==> path_raw(target) == placed(
                self@.prefix_for(path_raw(*path)),
                path_raw(*path),
            ),
    {
        match SegmentPathRouter::key_epoch(path) {
            Some(epoch) => join(self.owner_prefix(epoch), path),
            None => join(&self.own_prefix, path),
        }
    }

    /// Where a write, delete or list of `path` goes.
    pub fn local(&self, path: &Path) -> (target: Path)
        ensures
            path_raw(target) == self@.local(path_raw(*path)),
            is_path_text(path_raw(*path)) ==> path_raw(target) == placed(
                self@.own_prefix,
                path_raw(*path),
            ),
    {
        join(&self.own_prefix, path)
    }

    /// The path by which the volume knows what is stored at `stored`, as a list
    /// or a delete reports it.
    pub fn relative(&self, stored: &Path) -> (path: Path)
        ensures
            path_raw(path) == self@.relative(path_raw(*stored)),
    {
        match path_after(stored, &self.own_prefix) {
            Some(rest) => rest,
            None => stored.clone(),
        }
    }
}

/// What is stored for a path is listed under that path.
pub proof fn law_listed_path_is_the_written_one(routes: Routes, path: Seq<char>)
    requires
        is_path_text(path),
    ensures
        routes.relative(routes.local(path)) == path,
{
    let prefix = routes.own_prefix;
    let stored = routes.local(path);
    lemma_placed(prefix, path);
    lemma_path_text(path);
    let rest = stored.skip(prefix.len() as int);
    if path.len() == 0 {
        assert(rest =~= path);
    } else if prefix.len() == 0 {
        assert(rest =~= path);
    } else {
        assert(rest =~= seq!['/'] + path);
        assert(rest.drop_first() =~= path);
    }
}

/// What a volume with this lineage routes by.
pub open spec fn routes_of(own_prefix: Seq<char>, lineage: Option<ForkInfoView>) -> Routes {
    match lineage {
        Some(info) => Routes {
            own_prefix,
            own_base_epoch: info.base_epoch,
            ancestors: stably_sorted(owners_of(info.ancestors), epoch_order()),
        },
        None => Routes { own_prefix, own_base_epoch: 0, ancestors: Seq::empty() },
    }
}

/// Without a lineage every read goes where the write went: under the local
/// volume's db path.
pub proof fn law_no_lineage_routes_local(own_prefix: Seq<char>, path: Seq<char>)
    ensures
        routes_of(own_prefix, None).resolved(path) == routes_of(own_prefix, None).local(path),
{
}

/// What a fork wrote since its base epoch is read from where it was written.
pub proof fn law_own_segments_route_local(
    own_prefix: Seq<char>,
    lineage: Option<ForkInfoView>,
    path: Seq<char>,
)
    requires
        segment_epoch(path) is Some ==> segment_epoch(path)->0 >= routes_of(
            own_prefix,
            lineage,
        ).own_base_epoch,
    ensures
        routes_of(own_prefix, lineage).resolved(path) == routes_of(own_prefix, lineage).local(path),
{
}

/// The number of leading owners is where the base epochs pass `epoch`.
proof fn lemma_leading(owners: Seq<Owner>, epoch: u64)
    ensures
        leading(owners, epoch) <= owners.len(),
        forall|i: int| 0 <= i < leading(owners, epoch) ==> (#[trigger] owners[i]).0 <= epoch,
        leading(owners, epoch) < owners.len() ==> owners[leading(owners, epoch) as int].0 > epoch,
    decreases owners.len(),
{
    if owners.len() > 0 && owners[0].0 <= epoch {
        let rest = owners.drop_first();
        lemma_leading(rest, epoch);
        assert forall|i: int| 0 <= i < leading(owners, epoch) implies (#[trigger] owners[i]).0
            <= epoch by {
            if i > 0 {
                assert(rest[i - 1] == owners[i]);
            }
        }
    }
}

proof fn lemma_epoch_order_total()
    ensures
        total_order(epoch_order()),
{
}

/// A segment older than the fork's base epoch is read from the nearest
/// ancestor whose base epoch does not exceed it: no other such ancestor has a
/// greater base epoch. Where every ancestor's base epoch exceeds it, the
/// ancestor with the least one, the root, wrote it.
pub proof fn law_old_segments_route_to_nearest_ancestor(
    own_prefix: Seq<char>,
    lineage: ForkInfoView,
    epoch: u64,
) -> (at: int)
    requires
        epoch < lineage.base_epoch,
        lineage.ancestors.len() > 0,
    ensures
        ({
            let routes = routes_of(own_prefix, Some(lineage));
            &&& 0 <= at < routes.ancestors.len()
            &&& routes.owner(epoch) == routes.ancestors[at].1
            &&& forall|i: int|
                0 <= i < routes.ancestors.len() && (#[trigger] routes.ancestors[i]).0 <= epoch
                    ==> routes.ancestors[at].0 <= epoch && routes.ancestors[i].0
                    <= routes.ancestors[at].0
            &&& (forall|i: int|
                0 <= i < routes.ancestors.len() ==> (#[trigger] routes.ancestors[i]).0 > epoch)
                ==> forall|i: int|
                0 <= i < routes.ancestors.len() ==> routes.ancestors[at].0 <= (
                #[trigger] routes.ancestors[i]).0
            &&& routes.ancestors.to_multiset() == owners_of(lineage.ancestors).to_multiset()
        }),
{
    let routes = routes_of(own_prefix, Some(lineage));
    let owners = routes.ancestors;
    let unsorted = owners_of(lineage.ancestors);
    lemma_epoch_order_total();
    law_sort_is_in_order(unsorted, epoch_order());
    law_sort_keeps_items(unsorted, epoch_order());
    lemma_leading(owners, epoch);
    let n = leading(owners, epoch) as int;
    let at = if n == 0 {
        0
    } else {
        n - 1
    };
    assert forall|i: int| 0 <= i < owners.len() && (#[trigger] owners[i]).0 <= epoch implies
        owners[at].0 <= epoch && owners[i].0 <= owners[at].0 by {
        if i > at {
            assert(epoch_order()(owners[at], owners[i]));
            if i >= n && n < owners.len() {
                if i > n {
                    assert(epoch_order()(owners[n], owners[i]));
                }
            }
        } else if i < at {
            assert(epoch_order()(owners[i], owners[at]));
        }
    }
    assert forall|i: int| 0 <= i < owners.len() && at == 0 implies owners[at].0 <= (
    #[trigger] owners[i]).0 by {
        if i > 0 {
            assert(epoch_order()(owners[0], owners[i]));
        }
    }
    at
}

/// In a lineage whose base epochs ascend, a segment is read from the volume
/// that wrote it: the ancestor whose epochs, from its own base epoch to the
/// next volume's, hold the segment's.
pub proof fn law_segments_route_to_their_writer(
    own_prefix: Seq<char>,
    lineage: ForkInfoView,
    i: int,
    epoch: u64,
)
    requires
        epochs_ascend(lineage.ancestors),
        0 <= i < lineage.ancestors.len(),
        lineage.ancestors[i].1 <= epoch,
        epoch < lineage.base_epoch,
        i + 1 < lineage.ancestors.len() ==> epoch < lineage.ancestors[i + 1].1,
    ensures
        routes_of(own_prefix, Some(lineage)).owner(epoch) == path_from_text(
            lineage.ancestors[i].0,
        ),
{
    let owners = owners_of(lineage.ancestors);
    assert forall|a: int, b: int| 0 <= a < b < owners.len() implies epoch_order()(
        #[trigger] owners[a],
        #[trigger] owners[b],
    ) by {
        assert(lineage.ancestors[a].1 < lineage.ancestors[b].1);
    }
    lemma_sorted_stays(owners, epoch_order());
    lemma_leading(owners, epoch);
    let n = leading(owners, epoch) as int;
    assert(owners[i].0 <= epoch);
    if n <= i {
        assert(owners[n].0 > epoch);
        if n < i {
            assert(lineage.ancestors[n].1 < lineage.ancestors[i].1);
        }
    } else if n > i + 1 {
        assert(owners[i + 1].0 <= epoch);
    }
}

/// A fork reads what is older than its parent from where the parent reads it.
/// What the parent wrote, from its base epoch to the fork's, it reads from the
/// parent.
pub proof fn law_fork_reads_old_segments_like_its_parent(
    parent_prefix: Seq<char>,
    parent: ForkInfoView,
    parent_db_path: Seq<char>,
    own_prefix: Seq<char>,
    fork: ForkInfoView,
    epoch: u64,
)
    requires
        lineage_ascends(parent),
        fork.ancestors == child_ancestors_view(Some(parent), parent_db_path),
        parent.base_epoch < fork.base_epoch,
        epoch < fork.base_epoch,
    ensures
        epoch < parent.base_epoch && parent.ancestors.len() > 0 ==> routes_of(
            own_prefix,
            Some(fork),
        ).owner(epoch) == routes_of(parent_prefix, Some(parent)).owner(epoch),
        epoch >= parent.base_epoch ==> routes_of(own_prefix, Some(fork)).owner(epoch)
            == path_from_text(parent_db_path),
{
    law_child_ancestors_ascend(Some(parent), parent_db_path);
    let n = parent.ancestors.len() as int;
    law_child_ancestors_extend_the_parents(parent, parent_db_path, 0);
    assert(fork.ancestors[n] == (parent_db_path, parent.base_epoch));
    if epoch >= parent.base_epoch {
        law_segments_route_to_their_writer(own_prefix, fork, n, epoch);
    } else if n > 0 {
        let old = owners_of(parent.ancestors);
        let new = owners_of(fork.ancestors);
        assert forall|i: int| 0 <= i < n implies #[trigger] new[i] == old[i] by {
            law_child_ancestors_extend_the_parents(parent, parent_db_path, i);
        }
        lemma_ascending_stays(parent.ancestors);
        lemma_ascending_stays(fork.ancestors);
        lemma_leading(old, epoch);
        lemma_leading(new, epoch);
        let a = leading(old, epoch) as int;
        let b = leading(new, epoch) as int;
        assert(new[n].0 == parent.base_epoch);
        if a < b {
            if a < n {
                assert(old[a].0 > epoch);
                assert(new[a].0 <= epoch);
            } else {
                assert(new[n].0 <= epoch);
            }
        } else if b < a {
            assert(new[b].0 > epoch);
            assert(old[b].0 <= epoch);
        }
    }
}

/// Ancestors whose base epochs ascend are sorted as they stand.
proof fn lemma_ascending_stays(ancestors: Seq<AncestorView>)
    requires
        epochs_ascend(ancestors),
    ensures
        stably_sorted(owners_of(ancestors), epoch_order()) == owners_of(ancestors),
{
    let owners = owners_of(ancestors);
    assert forall|a: int, b: int| 0 <= a < b < owners.len() implies epoch_order()(
        #[trigger] owners[a],
        #[trigger] owners[b],
    ) by {
        assert(ancestors[a].1 < ancestors[b].1);
    }
    lemma_sorted_stays(owners, epoch_order());
}

/// Where a segment is read from, for any lineage. From its base epoch on a fork
/// reads its own; below it, the ancestor with the greatest base epoch that the
/// segment's epoch reaches, the later one in the record among equals; and where
/// the epoch reaches none, the ancestor with the least base epoch, the earlier
/// among equals. Without ancestors everything is the fork's own.
pub proof fn law_owner_of_an_epoch(
    own_prefix: Seq<char>,
    lineage: ForkInfoView,
    epoch: u64,
) -> (at: int)
    ensures
        epoch >= lineage.base_epoch || lineage.ancestors.len() == 0 ==> routes_of(
            own_prefix,
            Some(lineage),
        ).owner(epoch) == own_prefix,
        epoch < lineage.base_epoch && lineage.ancestors.len() > 0 ==> {
            &&& 0 <= at < lineage.ancestors.len()
            &&& routes_of(own_prefix, Some(lineage)).owner(epoch) == path_from_text(
                lineage.ancestors[at].0,
            )
            &&& forall|i: int|
                0 <= i < lineage.ancestors.len() && (#[trigger] lineage.ancestors[i]).1 <= epoch
                    ==> lineage.ancestors[at].1 <= epoch && (lineage.ancestors[i].1
                    < lineage.ancestors[at].1 || (lineage.ancestors[i].1 == lineage.ancestors[at].1
                    && i <= at))
            &&& lineage.ancestors[at].1 > epoch ==> forall|i: int|
                0 <= i < lineage.ancestors.len() ==> lineage.ancestors[at].1 < (
                #[trigger] lineage.ancestors[i]).1 || (lineage.ancestors[at].1
                    == lineage.ancestors[i].1 && at <= i)
        },
{
    let ancestors = lineage.ancestors;
    let owners = owners_of(ancestors);
    let sorted = stably_sorted(owners, epoch_order());
    if epoch >= lineage.base_epoch || ancestors.len() == 0 {
        law_sort_keeps_items(owners, epoch_order());
        0
    } else {
        lemma_epoch_order_total();
        law_sort_keeps_items(owners, epoch_order());
        let places = lemma_sorted_places(owners);
        lemma_leading(sorted, epoch);
        let n = leading(sorted, epoch) as int;
        let k = if n == 0 {
            0
        } else {
            n - 1
        };
        let at = places[k];
        assert(sorted[k] == owners[at]);
        assert forall|i: int|
            0 <= i < ancestors.len() && (
            #[trigger] ancestors[i]).1 <= epoch implies ancestors[at].1 <= epoch && (ancestors[i].1
            < ancestors[at].1 || (ancestors[i].1 == ancestors[at].1 && i <= at)) by {
            assert(places.contains(i));
            let j = choose|j: int| 0 <= j < places.len() && places[j] == i;
            assert(sorted[j] == owners[i]);
            if j > k {
                assert(places_before(owners, places[k], places[j]));
                if n < sorted.len() && j > n {
                    assert(places_before(owners, places[n], places[j]));
                    assert(sorted[n] == owners[places[n]]);
                }
            } else if j < k {
                assert(places_before(owners, places[j], places[k]));
            }
        }
        if ancestors[at].1 > epoch {
            assert forall|i: int| 0 <= i < ancestors.len() implies ancestors[at].1 < (
            #[trigger] ancestors[i]).1 || (ancestors[at].1 == ancestors[i].1 && at <= i) by {
                assert(places.contains(i));
                let j = choose|j: int| 0 <= j < places.len() && places[j] == i;
                if j > 0 {
                    assert(places_before(owners, places[0], places[j]));
                }
            }
        }
        at
    }
}

/// One owner is sorted before another: by base epoch, and then by place.
spec fn places_before(owners: Seq<Owner>, a: int, b: int) -> bool {
    owners[a].0 < owners[b].0 || (owners[a].0 == owners[b].0 && a < b)
}

/// Where the owners stood before they were sorted.
proof fn lemma_sorted_places(owners: Seq<Owner>) -> (places: Seq<int>)
    ensures
        places.len() == owners.len(),
        stably_sorted(owners, epoch_order()).len() == owners.len(),
        forall|j: int|
            0 <= j < places.len() ==> 0 <= #[trigger] places[j] < owners.len() && stably_sorted(
                owners,
                epoch_order(),
            )[j] == owners[places[j]],
        forall|i: int| 0 <= i < owners.len() ==> #[trigger] places.contains(i),
        forall|a: int, b: int|
            0 <= a < b < places.len() ==> places_before(
                owners,
                #[trigger] places[a],
                #[trigger] places[b],
            ),
    decreases owners.len(),
{
    if owners.len() == 0 {
        Seq::empty()
    } else {
        let init = owners.drop_last();
        let x = owners.last();
        let last = owners.len() - 1;
        let before = lemma_sorted_places(init);
        let sorted = stably_sorted(init, epoch_order());
        let at = lemma_epoch_place(sorted, x, init, before);
        lemma_inserted_at(sorted, x, epoch_order(), at);
        let places = before.insert(at, last);
        let all = stably_sorted(owners, epoch_order());
        assert(all == sorted.insert(at, x));
        assert forall|j: int| 0 <= j < places.len() implies 0 <= #[trigger] places[j]
            < owners.len() && all[j] == owners[places[j]] by {
            if j < at {
                assert(places[j] == before[j]);
            } else if j > at {
                assert(places[j] == before[j - 1]);
            }
        }
        assert forall|i: int| 0 <= i < owners.len() implies #[trigger] places.contains(i) by {
            if i == last {
                assert(places[at] == i);
            } else {
                assert(before.contains(i));
                let j = choose|j: int| 0 <= j < before.len() && before[j] == i;
                if j < at {
                    assert(places[j] == i);
                } else {
                    assert(places[j + 1] == i);
                }
            }
        }
        assert forall|a: int, b: int| 0 <= a < b < places.len() implies places_before(
            owners,
            #[trigger] places[a],
            #[trigger] places[b],
        ) by {
            let pa = if a < at {
                a
            } else {
                a - 1
            };
            let pb = if b < at {
                b
            } else {
                b - 1
            };
            if a != at && b != at {
                assert(places[a] == before[pa] && places[b] == before[pb]);
                assert(places_before(init, before[pa], before[pb]));
                assert(owners[before[pa]] == init[before[pa]]);
                assert(owners[before[pb]] == init[before[pb]]);
            } else if a == at {
                assert(places[b] == before[b - 1]);
                assert(!epoch_order()(sorted[b - 1], x));
                assert(owners[before[b - 1]] == init[before[b - 1]]);
            } else {
                assert(places[a] == before[a]);
                assert(epoch_order()(sorted[a], x));
                assert(owners[before[a]] == init[before[a]]);
            }
        }
        places
    }
}

/// Where an owner belongs among sorted ones: behind all that may stand before
/// it.
proof fn lemma_epoch_place(
    sorted: Seq<Owner>,
    x: Owner,
    owners: Seq<Owner>,
    places: Seq<int>,
) -> (at: int)
    requires
        places.len() == sorted.len(),
        forall|j: int|
            0 <= j < places.len() ==> 0 <= #[trigger] places[j] < owners.len() && sorted[j]
                == owners[places[j]],
        forall|a: int, b: int|
            0 <= a < b < places.len() ==> places_before(
                owners,
                #[trigger] places[a],
                #[trigger] places[b],
            ),
    ensures
        0 <= at <= sorted.len(),
        forall|i: int| 0 <= i < at ==> epoch_order()(#[trigger] sorted[i], x),
        forall|i: int| at <= i < sorted.len() ==> !epoch_order()(#[trigger] sorted[i], x),
    decreases sorted.len(),
{
    if sorted.len() == 0 {
        0
    } else if epoch_order()(sorted.last(), x) {
        let last = sorted.len() - 1;
        assert forall|i: int| 0 <= i < sorted.len() implies epoch_order()(
            #[trigger] sorted[i],
            x,
        ) by {
            if i < last {
                assert(places_before(owners, places[i], places[last]));
                assert(sorted[i] == owners[places[i]] && sorted[last] == owners[places[last]]);
            }
        }
        sorted.len() as int
    } else {
        let init = sorted.drop_last();
        let before = places.drop_last();
        assert forall|j: int| 0 <= j < before.len() implies 0 <= #[trigger] before[j]
            < owners.len() && init[j] == owners[before[j]] by {
            assert(before[j] == places[j]);
        }
        assert forall|a: int, b: int| 0 <= a < b < before.len() implies places_before(
            owners,
            #[trigger] before[a],
            #[trigger] before[b],
        ) by {
            assert(places_before(owners, places[a], places[b]));
        }
        let at = lemma_epoch_place(init, x, owners, before);
        assert forall|i: int| 0 <= i < at implies epoch_order()(#[trigger] sorted[i], x) by {
            assert(init[i] == sorted[i]);
        }
        assert forall|i: int| at <= i < sorted.len() implies !epoch_order()(
            #[trigger] sorted[i],
            x,
        ) by {
            if i < init.len() {
                assert(init[i] == sorted[i]);
            }
        }
        at
    }
}

/// A path has an epoch exactly if it has at least three segments, the first is
/// `segments`, and the third is a hexadecimal number: that one.
pub proof fn law_epoch_is_the_third_segment(path: Seq<char>, epoch: u64)
    ensures
        segment_epoch(path) == Some(epoch) <==> segments(path).len() >= 3 && segments(path)[0]
            == "segments"@ && parsed_u64(segments(path)[2], 16) == Some(epoch),
{
}

/// A path with an epoch is read under the owner of that epoch, and any other
/// path under the volume's own; everything is written, deleted and listed under
/// the volume's own.
pub proof fn law_paths_go_under_their_owner(routes: Routes, path: Seq<char>)
    requires
        is_path_text(path),
    ensures
        segment_epoch(path) is None ==> routes.resolved(path) == placed(routes.own_prefix, path),
        segment_epoch(path) is Some ==> routes.resolved(path) == placed(
            routes.owner(segment_epoch(path)->0),
            path,
        ),
        routes.local(path) == placed(routes.own_prefix, path),
        path.len() > 0 && routes.own_prefix.len() > 0 ==> routes.local(path)
            == routes.own_prefix + seq!['/'] + path,
        routes.own_prefix.len() == 0 ==> routes.local(path) == path,
        path.len() == 0 ==> routes.local(path) == routes.own_prefix,
{
    lemma_placed(routes.own_prefix, path);
    lemma_placed(routes.prefix_for(path), path);
    if path.len() > 0 && routes.own_prefix.len() > 0 {
        assert(routes.own_prefix.push('/') + path =~= routes.own_prefix + seq!['/'] + path);
    }
}

/// What a volume routes by: its own path, its base epoch, zero where it is no
/// fork, and as many ancestors as its lineage names.
pub proof fn law_routes_follow_the_lineage(own_prefix: Seq<char>, lineage: ForkInfoView)
    ensures
        routes_of(own_prefix, Some(lineage)).own_prefix == own_prefix,
        routes_of(own_prefix, Some(lineage)).own_base_epoch == lineage.base_epoch,
        routes_of(own_prefix, Some(lineage)).ancestors.len() == lineage.ancestors.len(),
        routes_of(own_prefix, None).own_prefix == own_prefix,
        routes_of(own_prefix, None).own_base_epoch == 0,
        routes_of(own_prefix, None).ancestors.len() == 0,
{
    law_sort_keeps_items(owners_of(lineage.ancestors), epoch_order());
}

/// What is stored elsewhere than under the volume's own path is listed as it is
/// stored: a path that does not go on with a slash behind the own path, such as
/// that of a volume whose name begins alike.
pub proof fn law_foreign_paths_are_listed_as_stored(routes: Routes, stored: Seq<char>)
    requires
        routes.own_prefix.len() > 0,
        stored != routes.own_prefix,
        forall|rest: Seq<char>| stored != #[trigger] (routes.own_prefix.push('/') + rest),
    ensures
        routes.relative(stored) == stored,
{
    let prefix = routes.own_prefix;
    if prefix.is_prefix_of(stored) {
        let rest = stored.skip(prefix.len() as int);
        assert(stored =~= prefix + rest);
        if rest.len() > 0 && rest[0] == '/' {
            assert(stored =~= prefix.push('/') + rest.drop_first());
        }
        if rest.len() == 0 {
            assert(stored =~= prefix);
        }
    }
}

/// Reading keeps a path's segments and only chooses what they go under: the owner
/// of the path's epoch, or the volume's own path where there is none.
pub proof fn law_reading_chooses_the_prefix(routes: Routes, path: Seq<char>, epoch: u64)
    ensures
        segment_epoch(path) == Some(epoch) ==> routes.resolved(path) == under(
            routes.owner(epoch),
            named_segments(path),
        ),
        segment_epoch(path) is None ==> routes.resolved(path) == under(
            routes.own_prefix,
            named_segments(path),
        ),
        routes.local(path) == under(routes.own_prefix, named_segments(path)),
{
}

} // verus!
