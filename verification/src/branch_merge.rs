//! Streaming merge of the two scopes that make up a branch's view of one
//! scanned range: the parent's rows (root layout) and the branch's own rows
//! (branch layout), with the branch's tombstones for the range.
//!
//! Both inputs are ordered by key, hence by suffix. The parent's scan covers
//! the whole kind, so it also meets every branch's rows: those carry a
//! non-zero branch field and are dropped. Root rows begin their suffix with a
//! big-endian id or timestamp below 2^32, so their field is zero.
//!
//! The output is ordered by suffix. Equal suffixes collapse to the branch's
//! row, parent rows with a tombstoned suffix are suppressed, and the parent
//! rows that survive are re-keyed into the branch layout.
//!
//! The merge holds at most one row per side. [`BranchMerge::step`] says what
//! it needs next; whoever runs the scans feeds it.

use crate::blob::{bytes_as_slice, bytes_copy_of, bytes_seq};
use crate::encoding::{
    be32_value, key_order, lemma_le_chain, lemma_lex_lt_asymmetric, lemma_lex_lt_total,
    lemma_lex_lt_transitive, lex_le, lex_lt, read_be32, KeyOrder,
};
use crate::key_codec::{adopted_key_of, scoped_suffix_of, tombstone_row, KeyCodec, KeyPrefix};
use bytes::Bytes;
use vstd::prelude::*;

verus! {

/// A stored row: key and value.
pub type Row = (Seq<u8>, Seq<u8>);

/// The contents of a row.
pub open spec fn row_seq(row: (Bytes, Bytes)) -> Row {
    (bytes_seq(row.0), bytes_seq(row.1))
}

/// A row that a scan of the merged ranges must not hold.
#[derive(Clone, Copy, Debug, PartialEq, Eq, Structural)]
pub enum MergeError {
    /// Parent-scope row outside the merged kind.
    ParentRow,
    /// Branch-scope row outside the merged kind.
    BranchRow,
}

/// What a merge puts out: rows, and the error that ended it early, if any.
pub struct MergeOutput {
    pub rows: Seq<Row>,
    pub error: Option<MergeError>,
}

/// Nothing more, with or without an error.
pub open spec fn ended(error: Option<MergeError>) -> MergeOutput {
    MergeOutput { rows: Seq::empty(), error }
}

/// One row, and then the rest.
pub open spec fn emitted(row: Row, rest: MergeOutput) -> MergeOutput {
    MergeOutput { rows: seq![row] + rest.rows, error: rest.error }
}

/// The suffix, read as a root row's, begins with a non-zero branch field.
pub open spec fn branch_qualified(suffix: Seq<u8>) -> bool {
    suffix.len() >= 4 && be32_value(suffix.subrange(0, 4)) != 0
}

/// The merged view: `parent` and `branch` are the rows still to come from each
/// scope, `tombstones` the suffixes that the branch deleted.
pub open spec fn merged(
    id: u32,
    tombstones: Seq<Seq<u8>>,
    parent: Seq<Row>,
    branch: Seq<Row>,
) -> MergeOutput
    decreases parent.len() + branch.len(),
{
    if parent.len() == 0 {
        if branch.len() == 0 {
            ended(None)
        } else {
            emitted(branch[0], merged(id, tombstones, parent, branch.drop_first()))
        }
    } else {
        match scoped_suffix_of(0, parent[0].0) {
            None => ended(Some(MergeError::ParentRow)),
            Some(ps) => {
                let parent_rest = merged(id, tombstones, parent.drop_first(), branch);
                let take_parent = if tombstones.contains(ps) {
                    parent_rest
                } else {
                    match adopted_key_of(id, parent[0].0) {
                        Some(key) => emitted((key, parent[0].1), parent_rest),
                        None => ended(Some(MergeError::ParentRow)),
                    }
                };
                if branch_qualified(ps) {
                    parent_rest
                } else if branch.len() == 0 {
                    take_parent
                } else {
                    match scoped_suffix_of(id, branch[0].0) {
                        None => ended(Some(MergeError::BranchRow)),
                        Some(bs) => if lex_lt(ps, bs) {
                            take_parent
                        } else if ps == bs {
                            emitted(
                                branch[0],
                                merged(id, tombstones, parent.drop_first(), branch.drop_first()),
                            )
                        } else {
                            emitted(
                                branch[0],
                                merged(id, tombstones, parent, branch.drop_first()),
                            )
                        },
                    }
                }
            },
        }
    }
}

/// The contents of a list of buffers.
pub open spec fn all_seq(keys: Seq<Bytes>) -> Seq<Seq<u8>> {
    keys.map_values(|b: Bytes| bytes_seq(b))
}

/// No key comes before its predecessor.
pub open spec fn ascending(keys: Seq<Seq<u8>>) -> bool {
    forall|i: int, j: int|
        0 <= i < j < keys.len() ==> lex_le(#[trigger] keys[i], #[trigger] keys[j])
}

/// Whether the buffers are in key order.
pub fn is_ascending(keys: &Vec<Bytes>) -> (sorted: bool)
    ensures
        sorted == ascending(all_seq(keys@)),
{
    let ghost all = all_seq(keys@);
    let mut i: usize = 1;
    while i < keys.len()
        invariant
            1 <= i,
            all == all_seq(keys@),
            all.len() == keys@.len(),
            forall|a: int, b: int|
                0 <= a < b < i && b < all.len() ==> lex_le(#[trigger] all[a], #[trigger] all[b]),
        decreases keys@.len() - i,
    {
        assert(all[i - 1] == bytes_seq(keys@[i - 1]) && all[i as int] == bytes_seq(keys@[i as int]));
        match key_order(bytes_as_slice(&keys[i - 1]), bytes_as_slice(&keys[i])) {
            KeyOrder::After => {
                proof {
                    lemma_lex_lt_asymmetric(all[i - 1], all[i as int]);
                    lemma_lex_lt_asymmetric(all[i as int], all[i as int]);
                }
                return false;
            },
            _ => {},
        }
        proof {
            assert forall|a: int, b: int| 0 <= a < b < i + 1 && b < all.len() implies lex_le(
                #[trigger] all[a],
                #[trigger] all[b],
            ) by {
                if b == i && a < i - 1 {
                    if all[a] != all[i - 1] && all[i - 1] != all[b] {
                        lemma_lex_lt_transitive(all[a], all[i - 1], all[b]);
                    }
                }
            }
        }
        i += 1;
    }
    true
}

/// A tombstone range held a row that is no tombstone of the branch.
#[derive(Clone, Copy, Debug, PartialEq, Eq, Structural)]
pub struct MalformedTombstone;

/// Takes the next row of a tombstone scan: appends the suffix that it shadows.
pub fn collect_tombstone_suffix(codec: &KeyCodec, key: &[u8], suffixes: &mut Vec<Bytes>) -> (taken:
    Result<(), MalformedTombstone>)
    ensures
        match taken {
            Ok(_) => exists|kind: KeyPrefix, suffix: Seq<u8>|
                key@ == #[trigger] tombstone_row(codec@, kind, suffix) && all_seq(final(suffixes)@)
                    == all_seq(old(suffixes)@).push(suffix),
            Err(_) => final(suffixes)@ == old(suffixes)@ && forall|kind: KeyPrefix, suffix: Seq<u8>|
                key@ != #[trigger] tombstone_row(codec@, kind, suffix),
        },
{
    match codec.parse_branch_tombstone_key(key) {
        Some((_kind, suffix)) => {
            suffixes.push(bytes_copy_of(suffix));
            assert(all_seq(suffixes@) =~= all_seq(old(suffixes)@).push(suffix@));
            Ok(())
        },
        None => Err(MalformedTombstone),
    }
}

/// What a merge needs or has.
pub enum MergeStep {
    /// Feed the next row of the parent's scan.
    NeedParent,
    /// Feed the next row of the branch's scan.
    NeedBranch,
    /// The next row of the merged view.
    Emit(Bytes, Bytes),
    /// The view is complete.
    End,
    /// A scan held a row it must not hold. Reported once; then the view ends.
    Fail(MergeError),
}

/// The state of a merge.
pub struct BranchMerge {
    codec: KeyCodec,
    tombstones: Vec<Bytes>,
    parent_head: Option<(Bytes, Bytes)>,
    branch_head: Option<(Bytes, Bytes)>,
    parent_done: bool,
    branch_done: bool,
    failed: bool,
}

/// What stands at the head of the parent's scan.
enum HeadState {
    /// Nothing.
    Absent,
    /// A row that is no scoped key.
    OutsideKind,
    /// A row of a branch.
    OtherScope,
    /// A row of the parent's.
    Ready,
}

/// The head of a scope as the first of its rows.
spec fn head_rows(head: Option<(Bytes, Bytes)>) -> Seq<Row> {
    match head {
        Some(row) => seq![row_seq(row)],
        None => Seq::empty(),
    }
}

impl BranchMerge {
    /// The tombstones are in order, and a scan that has ended left no head.
    pub closed spec fn wf(self) -> bool {
        &&& ascending(all_seq(self.tombstones@))
        &&& self.parent_head is Some ==> !self.parent_done
        &&& self.branch_head is Some ==> !self.branch_done
    }

    /// The merge's output from here on, if the parent's scan still yields the
    /// rows `parent` and the branch's the rows `branch`.
    pub closed spec fn pending(self, parent: Seq<Row>, branch: Seq<Row>) -> MergeOutput {
        if self.failed {
            ended(None)
        } else {
            merged(
                self.codec@,
                all_seq(self.tombstones@),
                head_rows(self.parent_head) + parent,
                head_rows(self.branch_head) + branch,
            )
        }
    }

    /// The parent's scan has not ended yet.
    pub closed spec fn parent_open(self) -> bool {
        !self.parent_done
    }

    /// The branch's scan has not ended yet.
    pub closed spec fn branch_open(self) -> bool {
        !self.branch_done
    }

    /// The merge holds no row of the parent's and can take one.
    pub closed spec fn wants_parent(self) -> bool {
        !self.failed && !self.parent_done && self.parent_head is None
    }

    /// The merge holds no row of the branch's and can take one.
    pub closed spec fn wants_branch(self) -> bool {
        !self.failed && !self.branch_done && self.branch_head is None
    }

    /// The view has ended for good: a failure ended it, or both scans have
    /// ended and no row is held.
    pub closed spec fn finished(self) -> bool {
        self.failed || (self.parent_done && self.branch_done && self.parent_head is None
            && self.branch_head is None)
    }

    /// The rows that the scans can still yield.
    pub open spec fn accepts(self, parent: Seq<Row>, branch: Seq<Row>) -> bool {
        (self.parent_open() || parent.len() == 0) && (self.branch_open() || branch.len() == 0)
    }

    /// A merge for the view of `codec`'s branch. The tombstoned suffixes come
    /// in scan order.
    pub fn new(tombstones: Vec<Bytes>, codec: KeyCodec) -> (merge: Self)
        requires
            ascending(all_seq(tombstones@)),
        ensures
            merge.wf(),
            merge.parent_open(),
            merge.branch_open(),
            !merge.finished(),
            forall|parent: Seq<Row>, branch: Seq<Row>| #[trigger]
                merge.pending(parent, branch) == merged(
                    codec@,
                    all_seq(tombstones@),
                    parent,
                    branch,
                ),
    {
        let merge = BranchMerge {
            codec,
            tombstones,
            parent_head: None,
            branch_head: None,
            parent_done: false,
            branch_done: false,
            failed: false,
        };
        proof {
            assert forall|parent: Seq<Row>, branch: Seq<Row>| #[trigger]
                merge.pending(parent, branch) == merged(
                    codec@,
                    all_seq(tombstones@),
                    parent,
                    branch,
                ) by {
                assert(Seq::<Row>::empty() + parent =~= parent);
                assert(Seq::<Row>::empty() + branch =~= branch);
            }
        }
        merge
    }

    /// Takes the next row of the parent's scan, or its end.
    pub fn feed_parent(&mut self, row: Option<(Bytes, Bytes)>)
        requires
            old(self).wf(),
            old(self).wants_parent(),
        ensures
            final(self).wf(),
            final(self).branch_open() == old(self).branch_open(),
            final(self).parent_open() == row is Some,
            row is Some ==> !final(self).finished(),
            forall|parent: Seq<Row>, branch: Seq<Row>| #[trigger]
                final(self).pending(parent, branch) == old(self).pending(
                    match row {
                        Some(r) => seq![row_seq(r)] + parent,
                        None => parent,
                    },
                    branch,
                ),
    {
        self.parent_done = row.is_none();
        self.parent_head = row;
        proof {
            assert forall|parent: Seq<Row>, branch: Seq<Row>| #[trigger]
                self.pending(parent, branch) == old(self).pending(
                    match row {
                        Some(r) => seq![row_seq(r)] + parent,
                        None => parent,
                    },
                    branch,
                ) by {
                assert(Seq::<Row>::empty() + (head_rows(row) + parent) =~= head_rows(row) + parent);
                assert(Seq::<Row>::empty() + parent =~= parent);
            }
        }
    }

    /// Takes the next row of the branch's scan, or its end.
    pub fn feed_branch(&mut self, row: Option<(Bytes, Bytes)>)
        requires
            old(self).wf(),
            old(self).wants_branch(),
        ensures
            final(self).wf(),
            final(self).parent_open() == old(self).parent_open(),
            final(self).branch_open() == row is Some,
            row is Some ==> !final(self).finished(),
            forall|parent: Seq<Row>, branch: Seq<Row>| #[trigger]
                final(self).pending(parent, branch) == old(self).pending(
                    parent,
                    match row {
                        Some(r) => seq![row_seq(r)] + branch,
                        None => branch,
                    },
                ),
    {
        self.branch_done = row.is_none();
        self.branch_head = row;
        proof {
            assert forall|parent: Seq<Row>, branch: Seq<Row>| #[trigger]
                self.pending(parent, branch) == old(self).pending(
                    parent,
                    match row {
                        Some(r) => seq![row_seq(r)] + branch,
                        None => branch,
                    },
                ) by {
                assert(Seq::<Row>::empty() + (head_rows(row) + branch) =~= head_rows(row) + branch);
                assert(Seq::<Row>::empty() + branch =~= branch);
            }
        }
    }

    /// A scan failed: the view ends here, and no scan is asked again.
    pub fn source_failed(&mut self)
        requires
            old(self).wf(),
        ensures
            final(self).wf(),
            final(self).finished(),
            forall|parent: Seq<Row>, branch: Seq<Row>| #[trigger]
                final(self).pending(parent, branch) == ended(None),
    {
        self.failed = true;
    }

    /// Whether the branch deleted the parent's row with this suffix.
    fn is_tombstoned(&self, suffix: &[u8]) -> (found: bool)
        requires
            self.wf(),
        ensures
            found == all_seq(self.tombstones@).contains(suffix@),
    {
        let ghost all = all_seq(self.tombstones@);
        let mut low: usize = 0;
        let mut high: usize = self.tombstones.len();
        while low < high
            invariant
                all == all_seq(self.tombstones@),
                all.len() == self.tombstones@.len(),
                ascending(all),
                low <= high <= all.len(),
                forall|i: int| 0 <= i < low ==> lex_lt(#[trigger] all[i], suffix@),
                forall|i: int| high <= i < all.len() ==> lex_lt(suffix@, #[trigger] all[i]),
            decreases high - low,
        {
            let mid: usize = low + (high - low) / 2;
            assert(all[mid as int] == bytes_seq(self.tombstones@[mid as int]));
            match key_order(bytes_as_slice(&self.tombstones[mid]), suffix) {
                KeyOrder::Before => {
                    proof {
                        assert forall|i: int| 0 <= i < mid + 1 implies lex_lt(
                            #[trigger] all[i],
                            suffix@,
                        ) by {
                            if i < mid && all[i] != all[mid as int] {
                                lemma_lex_lt_transitive(all[i], all[mid as int], suffix@);
                            }
                        }
                    }
                    low = mid + 1;
                },
                KeyOrder::Same => {
                    return true;
                },
                KeyOrder::After => {
                    proof {
                        assert forall|i: int| mid <= i < all.len() implies lex_lt(
                            suffix@,
                            #[trigger] all[i],
                        ) by {
                            if mid < i && all[i] != all[mid as int] {
                                lemma_lex_lt_transitive(suffix@, all[mid as int], all[i]);
                            }
                        }
                    }
                    high = mid;
                },
            }
        }
        proof {
            if all.contains(suffix@) {
                let i = choose|i: int| 0 <= i < all.len() && all[i] == suffix@;
                lemma_lex_lt_asymmetric(suffix@, suffix@);
            }
        }
        false
    }

    /// Classifies the parent's head.
    fn parent_state(&self) -> (state: HeadState)
        ensures
            match state {
                HeadState::Absent => self.parent_head is None,
                HeadState::OutsideKind => self.parent_head is Some && scoped_suffix_of(
                    0,
                    row_seq(self.parent_head->0).0,
                ) is None,
                HeadState::OtherScope => self.parent_head is Some && scoped_suffix_of(
                    0,
                    row_seq(self.parent_head->0).0,
                ) is Some && branch_qualified(
                    scoped_suffix_of(0, row_seq(self.parent_head->0).0)->0,
                ),
                HeadState::Ready => self.parent_head is Some && scoped_suffix_of(
                    0,
                    row_seq(self.parent_head->0).0,
                ) is Some && !branch_qualified(
                    scoped_suffix_of(0, row_seq(self.parent_head->0).0)->0,
                ),
            },
    {
        match &self.parent_head {
            None => HeadState::Absent,
            Some((key, _)) => match KeyCodec::new().scoped_suffix(bytes_as_slice(key)) {
                None => HeadState::OutsideKind,
                Some(suffix) => if suffix.len() >= 4 && read_be32(suffix, 0) != 0 {
                    HeadState::OtherScope
                } else {
                    HeadState::Ready
                },
            },
        }
    }

    /// Where the parent's head stands to the branch's, by suffix. `None` where
    /// the branch's head has none.
    fn head_order(&self) -> (order: Option<KeyOrder>)
        requires
            self.parent_head is Some,
            self.branch_head is Some,
            scoped_suffix_of(0, row_seq(self.parent_head->0).0) is Some,
        ensures
            match scoped_suffix_of(self.codec@, row_seq(self.branch_head->0).0) {
                None => order is None,
                Some(bs) => {
                    let ps = scoped_suffix_of(0, row_seq(self.parent_head->0).0)->0;
                    &&& order is Some
                    &&& order->0 == KeyOrder::Before <==> lex_lt(ps, bs)
                    &&& order->0 == KeyOrder::Same <==> ps == bs
                },
            },
    {
        match (&self.parent_head, &self.branch_head) {
            (Some((pk, _)), Some((bk, _))) => match (
                KeyCodec::new().scoped_suffix(bytes_as_slice(pk)),
                self.codec.scoped_suffix(bytes_as_slice(bk)),
            ) {
                (Some(ps), Some(bs)) => Some(key_order(ps, bs)),
                _ => None,
            },
            _ => None,
        }
    }

    /// Whether the parent's head was deleted in the branch.
    fn head_tombstoned(&self) -> (found: bool)
        requires
            self.wf(),
            self.parent_head is Some,
            scoped_suffix_of(0, row_seq(self.parent_head->0).0) is Some,
        ensures
            found == all_seq(self.tombstones@).contains(
                scoped_suffix_of(0, row_seq(self.parent_head->0).0)->0,
            ),
    {
        match &self.parent_head {
            Some((key, _)) => match KeyCodec::new().scoped_suffix(bytes_as_slice(key)) {
                Some(suffix) => self.is_tombstoned(suffix),
                None => false,
            },
            None => false,
        }
    }

    /// Advances the merge. Once the view has ended, by a failure or by itself,
    /// every further step says so and asks no scan.
    pub fn step(&mut self) -> (step: MergeStep)
        requires
            old(self).wf(),
        ensures
            final(self).wf(),
            final(self).parent_open() == old(self).parent_open(),
            final(self).branch_open() == old(self).branch_open(),
            old(self).finished() ==> step is End,
            step is End || step is Fail ==> final(self).finished(),
            match step {
                MergeStep::NeedParent => final(self).wants_parent() && forall|
                    parent: Seq<Row>,
                    branch: Seq<Row>,
                |
                    old(self).accepts(parent, branch) ==> #[trigger] final(self).pending(
                        parent,
                        branch,
                    ) == old(self).pending(parent, branch),
                MergeStep::NeedBranch => final(self).wants_branch() && forall|
                    parent: Seq<Row>,
                    branch: Seq<Row>,
                |
                    old(self).accepts(parent, branch) ==> #[trigger] final(self).pending(
                        parent,
                        branch,
                    ) == old(self).pending(parent, branch),
                MergeStep::Emit(key, value) => forall|parent: Seq<Row>, branch: Seq<Row>|
                    old(self).accepts(parent, branch) ==> old(self).pending(parent, branch)
                        == emitted(
                        row_seq((key, value)),
                        #[trigger] final(self).pending(parent, branch),
                    ),
                MergeStep::End => forall|parent: Seq<Row>, branch: Seq<Row>|
                    #![trigger old(self).pending(parent, branch)]
                    #![trigger final(self).pending(parent, branch)]
                    old(self).accepts(parent, branch) ==> old(self).pending(parent, branch)
                        == ended(None) && final(self).pending(parent, branch) == ended(None),
                MergeStep::Fail(error) => forall|parent: Seq<Row>, branch: Seq<Row>|
                    #![trigger old(self).pending(parent, branch)]
                    #![trigger final(self).pending(parent, branch)]
                    old(self).accepts(parent, branch) ==> old(self).pending(parent, branch)
                        == ended(Some(error)) && final(self).pending(parent, branch) == ended(None),
            },
    {
        if self.failed {
            return MergeStep::End;
        }
        let ghost before = *self;
        let state = self.parent_state();
        proof {
            assert forall|p: Seq<Row>, b: Seq<Row>| #[trigger] before.pending(p, b) == merged(
                before.codec@,
                all_seq(before.tombstones@),
                head_rows(before.parent_head) + p,
                head_rows(before.branch_head) + b,
            ) by {}
            assert forall|p: Seq<Row>| #[trigger] (Seq::<Row>::empty() + p) == p by {
                assert(Seq::<Row>::empty() + p =~= p);
            }
            assert forall|r: Row, p: Seq<Row>|
                (#[trigger] (seq![r] + p)).len() > 0 && (seq![r] + p)[0] == r && (seq![r]
                    + p).drop_first() == p by {
                assert((seq![r] + p).drop_first() =~= p);
            }
        }
        match state {
            HeadState::Absent => if !self.parent_done {
                return MergeStep::NeedParent;
            },
            HeadState::OutsideKind => {
                self.failed = true;
                return MergeStep::Fail(MergeError::ParentRow);
            },
            HeadState::OtherScope => {
                self.parent_head = None;
                return MergeStep::NeedParent;
            },
            HeadState::Ready => {},
        }
        if self.branch_head.is_none() && !self.branch_done {
            return MergeStep::NeedBranch;
        }
        let take_parent = if self.branch_head.is_none() {
            self.parent_head.is_some()
        } else if self.parent_head.is_none() {
            false
        } else {
            match self.head_order() {
                None => {
                    self.failed = true;
                    return MergeStep::Fail(MergeError::BranchRow);
                },
                Some(KeyOrder::Before) => true,
                Some(KeyOrder::Same) => {
                    // Same entry: the branch's row shadows the parent's.
                    self.parent_head = None;
                    false
                },
                Some(KeyOrder::After) => false,
            }
        };
        if !take_parent {
            return match self.branch_head.take() {
                Some((key, value)) => MergeStep::Emit(key, value),
                None => MergeStep::End,
            };
        }
        let tombstoned = self.head_tombstoned();
        match self.parent_head.take() {
            Some((key, value)) => {
                if tombstoned {
                    return MergeStep::NeedParent;
                }
                match self.codec.adopt_parent_key(bytes_as_slice(&key)) {
                    Some(adopted) => MergeStep::Emit(adopted, value),
                    None => {
                        self.failed = true;
                        MergeStep::Fail(MergeError::ParentRow)
                    },
                }
            },
            None => MergeStep::End,
        }
    }
}

/// The contents of a list of rows.
pub open spec fn rows_seq(rows: Seq<(Bytes, Bytes)>) -> Seq<Row> {
    rows.map_values(|row: (Bytes, Bytes)| row_seq(row))
}

/// Merges two scans whose rows have all been read: runs a [`BranchMerge`] to
/// its end.
pub fn merge_rows(
    codec: KeyCodec,
    tombstones: Vec<Bytes>,
    parent: &Vec<(Bytes, Bytes)>,
    branch: &Vec<(Bytes, Bytes)>,
) -> (out: (Vec<(Bytes, Bytes)>, Option<MergeError>))
    requires
        ascending(all_seq(tombstones@)),
    ensures
        merged(codec@, all_seq(tombstones@), rows_seq(parent@), rows_seq(branch@)) == (
        MergeOutput { rows: rows_seq(out.0@), error: out.1 }),
{
    let ghost p = rows_seq(parent@);
    let ghost b = rows_seq(branch@);
    let ghost whole = merged(codec@, all_seq(tombstones@), p, b);
    let mut merge = BranchMerge::new(tombstones, codec);
    let mut rows: Vec<(Bytes, Bytes)> = Vec::new();
    let mut i: usize = 0;
    let mut j: usize = 0;
    proof {
        assert(p.skip(0) =~= p);
        assert(b.skip(0) =~= b);
        assert(rows_seq(rows@) + merge.pending(p, b).rows =~= whole.rows);
    }
    loop
        invariant
            p == rows_seq(parent@),
            b == rows_seq(branch@),
            p.len() == parent@.len(),
            b.len() == branch@.len(),
            i <= p.len(),
            j <= b.len(),
            merge.wf(),
            merge.accepts(p.skip(i as int), b.skip(j as int)),
            rows_seq(rows@) + merge.pending(p.skip(i as int), b.skip(j as int)).rows == whole.rows,
            merge.pending(p.skip(i as int), b.skip(j as int)).error == whole.error,
            whole == merged(codec@, all_seq(tombstones@), p, b),
        decreases
                merge.pending(p.skip(i as int), b.skip(j as int)).rows.len() + (p.len() - i) + (
                b.len() - j) + (if merge.parent_open() {
                    1int
                } else {
                    0
                }) + (if merge.branch_open() {
                    1int
                } else {
                    0
                }),
    {
        let ghost before = merge.pending(p.skip(i as int), b.skip(j as int));
        match merge.step() {
            MergeStep::NeedParent => {
                if i < parent.len() {
                    let row = (parent[i].0.clone(), parent[i].1.clone());
                    proof {
                        assert(p[i as int] == row_seq(parent@[i as int]));
                        assert(seq![row_seq(row)] + p.skip(i + 1) =~= p.skip(i as int));
                    }
                    merge.feed_parent(Some(row));
                    i += 1;
                } else {
                    merge.feed_parent(None);
                }
            },
            MergeStep::NeedBranch => {
                if j < branch.len() {
                    let row = (branch[j].0.clone(), branch[j].1.clone());
                    proof {
                        assert(b[j as int] == row_seq(branch@[j as int]));
                        assert(seq![row_seq(row)] + b.skip(j + 1) =~= b.skip(j as int));
                    }
                    merge.feed_branch(Some(row));
                    j += 1;
                } else {
                    merge.feed_branch(None);
                }
            },
            MergeStep::Emit(key, value) => {
                let ghost sofar = rows_seq(rows@);
                rows.push((key, value));
                proof {
                    let after = merge.pending(p.skip(i as int), b.skip(j as int));
                    assert(before == emitted(row_seq((key, value)), after));
                    assert(rows_seq(rows@) =~= sofar.push(row_seq((key, value))));
                    assert(rows_seq(rows@) + after.rows =~= sofar + before.rows);
                }
            },
            MergeStep::End => {
                assert(rows_seq(rows@) + Seq::<Row>::empty() =~= rows_seq(rows@));
                return (rows, None);
            },
            MergeStep::Fail(error) => {
                assert(rows_seq(rows@) + Seq::<Row>::empty() =~= rows_seq(rows@));
                return (rows, Some(error));
            },
        }
    }
}

/// A list ascends exactly if what comes before its last key does, and the last key
/// is not before its predecessor. A list of at most one key ascends.
pub proof fn law_ascending_key_by_key(keys: Seq<Seq<u8>>, key: Seq<u8>)
    ensures
        keys.len() == 0 ==> ascending(keys.push(key)),
        keys.len() > 0 ==> (ascending(keys.push(key)) <==> ascending(keys) && (keys.last() == key
            || lex_lt(keys.last(), key))),
{
    let all = keys.push(key);
    let n = keys.len() as int;
    if n > 0 {
        if ascending(all) {
            assert forall|i: int, j: int| 0 <= i < j < n implies lex_le(
                #[trigger] keys[i],
                #[trigger] keys[j],
            ) by {
                assert(all[i] == keys[i] && all[j] == keys[j]);
            }
            assert(lex_le(all[n - 1], all[n]));
            lemma_lex_lt_total(keys.last(), key);
        }
        if ascending(keys) && (keys.last() == key || lex_lt(keys.last(), key)) {
            lemma_lex_lt_asymmetric(keys.last(), key);
            lemma_lex_lt_asymmetric(key, key);
            assert forall|i: int, j: int| 0 <= i < j < all.len() implies lex_le(
                #[trigger] all[i],
                #[trigger] all[j],
            ) by {
                if j == n {
                    if i < n - 1 {
                        assert(lex_le(keys[i], keys[n - 1]));
                        lemma_le_chain(keys[i], keys[n - 1], key);
                    }
                } else {
                    assert(lex_le(keys[i], keys[j]));
                }
            }
        }
    }
}

} // verus!
