//! What a merged scan yields.

use crate::branch_merge::{branch_qualified, merged, MergeError, Row};
use crate::branch_scan::{
    bound_key, branch_end, branch_start, in_bounds, kind_end, merged_kind, parent_end, parent_start,
    tombstone_bound, KeyBound,
};
use crate::branch_scan_laws::{
    bound_at, law_branch_range_own_rows, law_prefix_scans_agree, law_range_between_entries,
    law_scan_ranges_agree, law_tombstone_scan_agrees,
};
use crate::branch_view::{raw_get, view_get, Store};
use crate::branch_view_laws::{is_root_suffix, law_nearest_writer_wins};
use crate::encoding::{
    be32, lemma_be32_round_trip, lemma_byte_range, lemma_concat_parts, lemma_le_chain,
    lemma_lex_le_extension, lemma_lex_lt_asymmetric, lemma_lex_lt_same_prefix, lemma_lex_lt_total,
    lemma_lex_lt_transitive, lemma_prefix_splits, lemma_starts_with_same_prefix, lex_le, lex_lt,
    starts_with,
};
use crate::key_codec::{
    full_key, is_scoped_key, key_header, key_kind, key_suffix, kind_byte, kind_domain, kind_scoped,
    range_end, scoped_suffix_of, tombstone_header, tombstone_row, KeyPrefix,
};
use crate::key_laws::{
    law_full_key_injective, law_full_key_parts, law_global_layout, law_keys_sort_by_suffix,
    law_kind_of_key, law_prefix_range_covers, law_scoped_key_rebuilds, law_strip_adopt,
    law_tombstone_bound_re_roots,
};
use crate::layout_laws::{law_big_endian_bytes_weigh, law_big_endian_values_weigh};
use vstd::prelude::*;

verus! {

/// Rows of a scan within `kind` in root layout: strictly ascending keys of the
/// kind.
pub open spec fn is_parent_scan(kind: KeyPrefix, rows: Seq<Row>) -> bool {
    &&& forall|i: int| 0 <= i < rows.len() ==> key_kind((#[trigger] rows[i]).0) == Some(kind)
    &&& forall|i: int, j: int|
        0 <= i < j < rows.len() ==> lex_lt((#[trigger] rows[i]).0, (#[trigger] rows[j]).0)
}

/// Rows of a scan within `kind` in the layout of the branch `id`: strictly
/// ascending keys of the branch.
pub open spec fn is_branch_scan(id: u32, kind: KeyPrefix, rows: Seq<Row>) -> bool {
    &&& forall|i: int|
        0 <= i < rows.len() ==> is_scoped_key(id, (#[trigger] rows[i]).0) && key_kind(rows[i].0)
            == Some(kind)
    &&& forall|i: int, j: int|
        0 <= i < j < rows.len() ==> lex_lt((#[trigger] rows[i]).0, (#[trigger] rows[j]).0)
}

/// A parent row, re-keyed into the layout of the branch `id`.
pub open spec fn adopted_row(id: u32, kind: KeyPrefix, row: Row) -> Row {
    (full_key(id, kind, key_suffix(0, row.0)), row.1)
}

/// A parent row shows in the branch's view: it is no branch's row, the branch
/// did not delete the entry, and has no row of its own for it.
pub open spec fn parent_row_shows(
    id: u32,
    tombstones: Seq<Seq<u8>>,
    branch: Seq<Row>,
    row: Row,
) -> bool {
    &&& !branch_qualified(key_suffix(0, row.0))
    &&& !tombstones.contains(key_suffix(0, row.0))
    &&& forall|j: int|
        0 <= j < branch.len() ==> key_suffix(id, (#[trigger] branch[j]).0) != key_suffix(0, row.0)
}

/// `row` belongs to the merged view.
pub open spec fn in_view(
    id: u32,
    kind: KeyPrefix,
    tombstones: Seq<Seq<u8>>,
    parent: Seq<Row>,
    branch: Seq<Row>,
    row: Row,
) -> bool {
    branch.contains(row) || exists|i: int|
        #![trigger parent[i]]
        0 <= i < parent.len() && parent_row_shows(id, tombstones, branch, parent[i]) && row
            == adopted_row(id, kind, parent[i])
}

/// Rows of one scan are ordered by suffix.
proof fn lemma_rows_by_suffix(id: u32, kind: KeyPrefix, a: Seq<u8>, b: Seq<u8>)
    requires
        kind_scoped(kind),
        is_scoped_key(id, a),
        key_kind(a) == Some(kind),
        is_scoped_key(id, b),
        key_kind(b) == Some(kind),
    ensures
        lex_lt(a, b) <==> lex_lt(key_suffix(id, a), key_suffix(id, b)),
        a == b <==> key_suffix(id, a) == key_suffix(id, b),
{
    law_scoped_key_rebuilds(id, a);
    law_scoped_key_rebuilds(id, b);
    law_keys_sort_by_suffix(id, kind, key_suffix(id, a), key_suffix(id, b));
}

/// A key of a scoped kind is a scoped key in root layout.
proof fn lemma_kind_is_root_key(kind: KeyPrefix, key: Seq<u8>)
    requires
        kind_scoped(kind),
        key_kind(key) == Some(kind),
    ensures
        is_scoped_key(0, key),
        key == full_key(0, kind, key_suffix(0, key)),
{
    law_kind_of_key(key, kind);
    law_scoped_key_rebuilds(0, key);
}

/// Parent suffixes ascend.
proof fn lemma_parent_suffixes(kind: KeyPrefix, rows: Seq<Row>)
    requires
        kind_scoped(kind),
        is_parent_scan(kind, rows),
    ensures
        forall|i: int| 0 <= i < rows.len() ==> is_scoped_key(0, (#[trigger] rows[i]).0),
        forall|i: int, j: int|
            0 <= i < j < rows.len() ==> lex_lt(
                key_suffix(0, (#[trigger] rows[i]).0),
                key_suffix(0, (#[trigger] rows[j]).0),
            ),
{
    assert forall|i: int| 0 <= i < rows.len() implies is_scoped_key(0, (#[trigger] rows[i]).0) by {
        lemma_kind_is_root_key(kind, rows[i].0);
    }
    assert forall|i: int, j: int| 0 <= i < j < rows.len() implies lex_lt(
        key_suffix(0, (#[trigger] rows[i]).0),
        key_suffix(0, (#[trigger] rows[j]).0),
    ) by {
        lemma_rows_by_suffix(0, kind, rows[i].0, rows[j].0);
    }
}

/// Branch suffixes ascend.
proof fn lemma_branch_suffixes(id: u32, kind: KeyPrefix, rows: Seq<Row>)
    requires
        kind_scoped(kind),
        is_branch_scan(id, kind, rows),
    ensures
        forall|i: int, j: int|
            0 <= i < j < rows.len() ==> lex_lt(
                key_suffix(id, (#[trigger] rows[i]).0),
                key_suffix(id, (#[trigger] rows[j]).0),
            ),
{
    assert forall|i: int, j: int| 0 <= i < j < rows.len() implies lex_lt(
        key_suffix(id, (#[trigger] rows[i]).0),
        key_suffix(id, (#[trigger] rows[j]).0),
    ) by {
        lemma_rows_by_suffix(id, kind, rows[i].0, rows[j].0);
    }
}

/// With the parent's scan at its end, the view is what is left of the
/// branch's.
proof fn lemma_merged_no_parent(id: u32, tombstones: Seq<Seq<u8>>, branch: Seq<Row>)
    ensures
        merged(id, tombstones, Seq::empty(), branch).rows == branch,
        merged(id, tombstones, Seq::empty(), branch).error is None,
    decreases branch.len(),
{
    if branch.len() > 0 {
        lemma_merged_no_parent(id, tombstones, branch.drop_first());
        assert(seq![branch[0]] + branch.drop_first() =~= branch);
    } else {
        assert(branch =~= Seq::empty());
    }
}

/// A row put before a scan all of whose rows come later.
proof fn lemma_prepend(id: u32, kind: KeyPrefix, first: Row, rest: Seq<Row>)
    requires
        is_branch_scan(id, kind, rest),
        is_scoped_key(id, first.0),
        key_kind(first.0) == Some(kind),
        forall|i: int| 0 <= i < rest.len() ==> lex_lt(first.0, (#[trigger] rest[i]).0),
    ensures
        is_branch_scan(id, kind, seq![first] + rest),
        forall|row: Row| #[trigger] (seq![first] + rest).contains(row) <==> row == first
            || rest.contains(row),
{
    let all = seq![first] + rest;
    assert forall|i: int| 0 <= i < all.len() implies is_scoped_key(id, (#[trigger] all[i]).0)
        && key_kind(all[i].0) == Some(kind) by {
        if i > 0 {
            assert(all[i] == rest[i - 1]);
        }
    }
    assert forall|i: int, j: int| 0 <= i < j < all.len() implies lex_lt(
        (#[trigger] all[i]).0,
        (#[trigger] all[j]).0,
    ) by {
        assert(all[j] == rest[j - 1]);
        if i > 0 {
            assert(all[i] == rest[i - 1]);
        }
    }
    assert forall|row: Row| #[trigger] all.contains(row) <==> row == first || rest.contains(row) by {
        if all.contains(row) {
            let i = choose|i: int| 0 <= i < all.len() && all[i] == row;
            if i > 0 {
                assert(rest[i - 1] == row);
            }
        }
        if row == first {
            assert(all[0] == row);
        }
        if rest.contains(row) {
            let i = choose|i: int| 0 <= i < rest.len() && rest[i] == row;
            assert(all[i + 1] == row);
        }
    }
}

/// Every row of the view of `parent` and `branch` comes after `bound`, where
/// all their rows do.
proof fn lemma_view_after(
    id: u32,
    kind: KeyPrefix,
    tombstones: Seq<Seq<u8>>,
    parent: Seq<Row>,
    branch: Seq<Row>,
    bound: Seq<u8>,
    rows: Seq<Row>,
)
    requires
        kind_scoped(kind),
        is_parent_scan(kind, parent),
        is_branch_scan(id, kind, branch),
        forall|i: int|
            0 <= i < parent.len() ==> lex_lt(bound, key_suffix(0, (#[trigger] parent[i]).0)),
        forall|i: int|
            0 <= i < branch.len() ==> lex_lt(bound, key_suffix(id, (#[trigger] branch[i]).0)),
        forall|row: Row| #[trigger]
            rows.contains(row) <==> in_view(id, kind, tombstones, parent, branch, row),
    ensures
        forall|i: int|
            0 <= i < rows.len() ==> lex_lt(full_key(id, kind, bound), (#[trigger] rows[i]).0),
{
    assert forall|i: int| 0 <= i < rows.len() implies lex_lt(
        full_key(id, kind, bound),
        (#[trigger] rows[i]).0,
    ) by {
        let row = rows[i];
        assert(rows.contains(row));
        if branch.contains(row) {
            let j = choose|j: int| 0 <= j < branch.len() && branch[j] == row;
            law_scoped_key_rebuilds(id, branch[j].0);
            law_keys_sort_by_suffix(id, kind, bound, key_suffix(id, branch[j].0));
        } else {
            let j = choose|j: int|
                #![trigger parent[j]]
                0 <= j < parent.len() && parent_row_shows(id, tombstones, branch, parent[j]) && row
                    == adopted_row(id, kind, parent[j]);
            law_keys_sort_by_suffix(id, kind, bound, key_suffix(0, parent[j].0));
        }
    }
}

/// Membership of the first parent row aside, the view is that of the rest.
proof fn lemma_view_without_parent_head(
    id: u32,
    kind: KeyPrefix,
    tombstones: Seq<Seq<u8>>,
    parent: Seq<Row>,
    branch: Seq<Row>,
    row: Row,
)
    requires
        parent.len() > 0,
    ensures
        in_view(id, kind, tombstones, parent, branch, row) <==> in_view(
            id,
            kind,
            tombstones,
            parent.drop_first(),
            branch,
            row,
        ) || (parent_row_shows(id, tombstones, branch, parent[0]) && row == adopted_row(
            id,
            kind,
            parent[0],
        )),
{
    let rest = parent.drop_first();
    if in_view(id, kind, tombstones, parent, branch, row) && !branch.contains(row) {
        let i = choose|i: int|
            #![trigger parent[i]]
            0 <= i < parent.len() && parent_row_shows(id, tombstones, branch, parent[i]) && row
                == adopted_row(id, kind, parent[i]);
        if i > 0 {
            assert(rest[i - 1] == parent[i]);
        }
    }
    if in_view(id, kind, tombstones, rest, branch, row) && !branch.contains(row) {
        let i = choose|i: int|
            #![trigger rest[i]]
            0 <= i < rest.len() && parent_row_shows(id, tombstones, branch, rest[i]) && row
                == adopted_row(id, kind, rest[i]);
        assert(parent[i + 1] == rest[i]);
    }
}

/// A first branch row that shadows none of the parent's rows can be set aside.
proof fn lemma_view_without_branch_head(
    id: u32,
    kind: KeyPrefix,
    tombstones: Seq<Seq<u8>>,
    parent: Seq<Row>,
    branch: Seq<Row>,
    row: Row,
)
    requires
        branch.len() > 0,
        forall|i: int|
            0 <= i < parent.len() ==> key_suffix(0, (#[trigger] parent[i]).0) != key_suffix(
                id,
                branch[0].0,
            ),
    ensures
        in_view(id, kind, tombstones, parent, branch, row) <==> row == branch[0] || in_view(
            id,
            kind,
            tombstones,
            parent,
            branch.drop_first(),
            row,
        ),
{
    let rest = branch.drop_first();
    assert(branch.contains(row) <==> row == branch[0] || rest.contains(row)) by {
        if branch.contains(row) {
            let i = choose|i: int| 0 <= i < branch.len() && branch[i] == row;
            if i > 0 {
                assert(rest[i - 1] == row);
            }
        }
        if rest.contains(row) {
            let i = choose|i: int| 0 <= i < rest.len() && rest[i] == row;
            assert(branch[i + 1] == row);
        }
        if row == branch[0] {
            assert(branch.contains(branch[0]));
        }
    }
    assert forall|i: int| 0 <= i < parent.len() implies parent_row_shows(
        id,
        tombstones,
        branch,
        #[trigger] parent[i],
    ) == parent_row_shows(id, tombstones, rest, parent[i]) by {
        let s = key_suffix(0, parent[i].0);
        if parent_row_shows(id, tombstones, branch, parent[i]) {
            assert forall|j: int| 0 <= j < rest.len() implies key_suffix(id, (#[trigger] rest[j]).0)
                != s by {
                assert(rest[j] == branch[j + 1]);
            }
        }
        if parent_row_shows(id, tombstones, rest, parent[i]) {
            assert forall|j: int| 0 <= j < branch.len() implies key_suffix(
                id,
                (#[trigger] branch[j]).0,
            ) != s by {
                if j > 0 {
                    assert(branch[j] == rest[j - 1]);
                }
            }
        }
    }
}

/// A merged scan yields no error, its keys are the branch's and ascend, and a
/// row is in it exactly when it is the branch's own, or the parent's and
/// neither shadowed nor deleted.
pub proof fn law_merge_yields_view(
    id: u32,
    kind: KeyPrefix,
    tombstones: Seq<Seq<u8>>,
    parent: Seq<Row>,
    branch: Seq<Row>,
)
    requires
        id != 0,
        kind_scoped(kind),
        is_parent_scan(kind, parent),
        is_branch_scan(id, kind, branch),
    ensures
        merged(id, tombstones, parent, branch).error is None,
        is_branch_scan(id, kind, merged(id, tombstones, parent, branch).rows),
        forall|row: Row| #[trigger]
            merged(id, tombstones, parent, branch).rows.contains(row) <==> in_view(
                id,
                kind,
                tombstones,
                parent,
                branch,
                row,
            ),
    decreases parent.len() + branch.len(),
{
    let out = merged(id, tombstones, parent, branch);
    if parent.len() == 0 {
        assert(parent =~= Seq::empty());
        lemma_merged_no_parent(id, tombstones, branch);
    } else {
        lemma_parent_suffixes(kind, parent);
        lemma_branch_suffixes(id, kind, branch);
        let p1 = parent.drop_first();
        let b1 = branch.drop_first();
        let ps = key_suffix(0, parent[0].0);
        lemma_kind_is_root_key(kind, parent[0].0);
        law_strip_adopt(id, kind, ps);
        law_full_key_parts(id, kind, ps);
        assert forall|row: Row|
            #![trigger in_view(id, kind, tombstones, parent, branch, row)]
            in_view(id, kind, tombstones, parent, branch, row) <==> in_view(
                id,
                kind,
                tombstones,
                p1,
                branch,
                row,
            ) || (parent_row_shows(id, tombstones, branch, parent[0]) && row == adopted_row(
                id,
                kind,
                parent[0],
            )) by {
            lemma_view_without_parent_head(id, kind, tombstones, parent, branch, row);
        }
        if branch_qualified(ps) {
            law_merge_yields_view(id, kind, tombstones, p1, branch);
        } else if branch.len() == 0 || lex_lt(ps, key_suffix(id, branch[0].0)) {
            law_merge_yields_view(id, kind, tombstones, p1, branch);
            assert forall|j: int| 0 <= j < branch.len() implies lex_lt(
                ps,
                key_suffix(id, (#[trigger] branch[j]).0),
            ) by {
                if j > 0 {
                    lemma_lex_lt_transitive(
                        ps,
                        key_suffix(id, branch[0].0),
                        key_suffix(id, branch[j].0),
                    );
                }
            }
            assert forall|j: int| 0 <= j < branch.len() implies key_suffix(
                id,
                (#[trigger] branch[j]).0,
            ) != ps by {
                lemma_lex_lt_asymmetric(ps, ps);
            }
            let rest = merged(id, tombstones, p1, branch).rows;
            lemma_view_after(id, kind, tombstones, p1, branch, ps, rest);
            if !tombstones.contains(ps) {
                lemma_prepend(id, kind, adopted_row(id, kind, parent[0]), rest);
            }
        } else {
            let bs = key_suffix(id, branch[0].0);
            law_scoped_key_rebuilds(id, branch[0].0);
            lemma_lex_lt_total(ps, bs);
            if ps == bs {
                law_merge_yields_view(id, kind, tombstones, p1, b1);
                assert(!parent_row_shows(id, tombstones, branch, parent[0])) by {
                    assert(key_suffix(id, branch[0].0) == ps);
                }
                let rest = merged(id, tombstones, p1, b1).rows;
                lemma_view_after(id, kind, tombstones, p1, b1, ps, rest);
                lemma_prepend(id, kind, branch[0], rest);
                assert forall|i: int| 0 <= i < p1.len() implies key_suffix(
                    0,
                    (#[trigger] p1[i]).0,
                ) != bs by {
                    lemma_lex_lt_asymmetric(ps, ps);
                }
                assert forall|row: Row| #[trigger]
                    out.rows.contains(row) <==> in_view(
                        id,
                        kind,
                        tombstones,
                        parent,
                        branch,
                        row,
                    ) by {
                    lemma_view_without_branch_head(id, kind, tombstones, p1, branch, row);
                }
            } else {
                law_merge_yields_view(id, kind, tombstones, parent, b1);
                assert forall|i: int| 0 <= i < parent.len() implies lex_lt(
                    bs,
                    key_suffix(0, (#[trigger] parent[i]).0),
                ) by {
                    if i > 0 {
                        lemma_lex_lt_transitive(bs, ps, key_suffix(0, parent[i].0));
                    }
                }
                let rest = merged(id, tombstones, parent, b1).rows;
                lemma_view_after(id, kind, tombstones, parent, b1, bs, rest);
                lemma_prepend(id, kind, branch[0], rest);
                assert forall|i: int| 0 <= i < parent.len() implies key_suffix(
                    0,
                    (#[trigger] parent[i]).0,
                ) != bs by {
                    lemma_lex_lt_asymmetric(bs, bs);
                }
                assert forall|row: Row| #[trigger]
                    out.rows.contains(row) <==> in_view(
                        id,
                        kind,
                        tombstones,
                        parent,
                        branch,
                        row,
                    ) by {
                    lemma_view_without_branch_head(id, kind, tombstones, parent, branch, row);
                }
            }
        }
    }
}

/// What a scan of a range yields: the stored rows in it, in key order.
pub open spec fn is_scan_of(
    store: Store,
    start: KeyBound<Seq<u8>>,
    end: KeyBound<Seq<u8>>,
    rows: Seq<Row>,
) -> bool {
    &&& forall|i: int, j: int|
        0 <= i < j < rows.len() ==> lex_lt((#[trigger] rows[i]).0, (#[trigger] rows[j]).0)
    &&& forall|row: Row| #[trigger]
        rows.contains(row) <==> store.contains_key(row.0) && store[row.0] == row.1 && in_bounds(
            row.0,
            start,
            end,
        )
}

/// The suffixes that a scan of a branch's tombstone rows names.
pub open spec fn are_tombstones_of(
    store: Store,
    id: u32,
    start: KeyBound<Seq<u8>>,
    end: KeyBound<Seq<u8>>,
    suffixes: Seq<Seq<u8>>,
) -> bool {
    forall|suffix: Seq<u8>| #[trigger]
        suffixes.contains(suffix) <==> exists|kind: KeyPrefix|
            store.contains_key(#[trigger] tombstone_row(id, kind, suffix)) && in_bounds(
                tombstone_row(id, kind, suffix),
                start,
                end,
            )
}

/// Every stored key of `kind` is long enough to hold a branch id, and no row
/// is stored under the bare end of the kind.
pub open spec fn keys_complete(store: Store, kind: KeyPrefix) -> bool {
    &&& forall|key: Seq<u8>| #[trigger]
        store.contains_key(key) && key_kind(key) == Some(kind) ==> key.len() >= key_header(
            0,
            kind,
        ).len() + 4
    &&& !store.contains_key(kind_end(kind))
}

/// A key between a parent-view start and end is of the kind, or is the bare
/// end of the kind.
proof fn lemma_parent_range_in_kind(
    id: u32,
    kind: KeyPrefix,
    start: KeyBound<Seq<u8>>,
    end: KeyBound<Seq<u8>>,
    key: Seq<u8>,
)
    requires
        merged_kind(id, start, end) == Some(kind),
        in_bounds(key, parent_start(id, kind, start), parent_end(id, kind, end)),
        key != kind_end(kind),
    ensures
        key_kind(key) == Some(kind),
{
    let root = key_header(0, kind);
    let past = kind_end(kind);
    let first = bound_key(parent_start(id, kind, start))->0;
    let last = bound_key(parent_end(id, kind, end))->0;
    let empty = Seq::<u8>::empty();
    law_global_layout(0, kind);
    law_prefix_range_covers(0, kind, empty);
    assert(full_key(0, kind, empty) =~= root);
    law_prefix_range_covers(0, kind, key_suffix(id, bound_key(start)->0));
    law_prefix_range_covers(0, kind, key_suffix(id, bound_key(end)->0));
    lemma_le_chain(root, first, key);
    lemma_le_chain(key, last, past);
    lemma_byte_range(kind_domain(kind), kind_byte(kind), key);
    law_kind_of_key(key, kind);
}

/// A tombstone row in a merged scan's tombstone range shadows an entry of the
/// scanned kind, or has an empty suffix.
proof fn lemma_tombstone_range_in_kind(
    id: u32,
    kind: KeyPrefix,
    start: KeyBound<Seq<u8>>,
    end: KeyBound<Seq<u8>>,
    other: KeyPrefix,
    suffix: Seq<u8>,
)
    requires
        merged_kind(id, start, end) == Some(kind),
        suffix.len() > 0,
        in_bounds(
            tombstone_row(id, other, suffix),
            tombstone_bound(id, parent_start(id, kind, start))->0,
            tombstone_bound(id, parent_end(id, kind, end))->0,
        ),
    ensures
        other == kind,
{
    let header = tombstone_header(id);
    let rows = header.push(kind_byte(kind));
    let past = header.push((kind_byte(kind) + 1) as u8);
    let row = tombstone_row(id, other, suffix);
    let empty = Seq::<u8>::empty();
    let from = key_suffix(id, bound_key(start)->0);
    let to = key_suffix(id, bound_key(end)->0);
    law_tombstone_bound_re_roots(id, kind, empty);
    law_tombstone_bound_re_roots(id, kind, from);
    law_tombstone_bound_re_roots(id, kind, to);
    assert(full_key(0, kind, empty) =~= key_header(0, kind));
    assert(rows + empty =~= rows);
    let first = bound_key(tombstone_bound(id, parent_start(id, kind, start))->0)->0;
    let last = bound_key(tombstone_bound(id, parent_end(id, kind, end))->0)->0;
    lemma_lex_le_extension(rows, from);
    lemma_concat_parts(rows, to);
    lemma_byte_range(header, kind_byte(kind), rows + to);
    lemma_concat_parts(rows, empty);
    lemma_byte_range(header, kind_byte(kind), rows);
    lemma_le_chain(rows, first, row);
    lemma_le_chain(row, last, past);
    assert(row.len() > past.len());
    lemma_byte_range(header, kind_byte(kind), row);
    assert(row.subrange(0, rows.len() as int)[9] == rows[9]);
    assert(row[9] == kind_byte(other));
}

/// A merged range scan is the branch's view of the range: it fails on no row,
/// its keys ascend and lie in the range, and it yields a value under an
/// entry's branch key exactly when a point read of that key does.
pub proof fn law_merged_scan_is_branch_view(
    store: Store,
    id: u32,
    kind: KeyPrefix,
    start: KeyBound<Seq<u8>>,
    end: KeyBound<Seq<u8>>,
    parent: Seq<Row>,
    branch: Seq<Row>,
    tombstones: Seq<Seq<u8>>,
)
    requires
        merged_kind(id, start, end) == Some(kind),
        keys_complete(store, kind),
        is_scan_of(store, parent_start(id, kind, start), parent_end(id, kind, end), parent),
        is_scan_of(store, branch_start(id, kind, start), branch_end(id, kind, end), branch),
        are_tombstones_of(
            store,
            id,
            tombstone_bound(id, parent_start(id, kind, start))->0,
            tombstone_bound(id, parent_end(id, kind, end))->0,
            tombstones,
        ),
    ensures
        merged(id, tombstones, parent, branch).error is None,
        is_branch_scan(id, kind, merged(id, tombstones, parent, branch).rows),
        forall|row: Row| #[trigger]
            merged(id, tombstones, parent, branch).rows.contains(row) ==> in_bounds(
                row.0,
                start,
                end,
            ),
        forall|suffix: Seq<u8>, value: Seq<u8>|
            is_root_suffix(suffix) && in_bounds(full_key(id, kind, suffix), start, end) ==> (
            #[trigger] merged(id, tombstones, parent, branch).rows.contains(
                (full_key(id, kind, suffix), value),
            ) <==> view_get(store, id, full_key(id, kind, suffix)) == Some(value)),
{
    let rows = merged(id, tombstones, parent, branch).rows;
    lemma_scans_well_formed(store, id, kind, start, end, parent, branch);
    law_merge_yields_view(id, kind, tombstones, parent, branch);
    assert forall|row: Row| #[trigger] rows.contains(row) implies in_bounds(row.0, start, end) by {
        lemma_row_in_bounds(store, id, kind, start, end, parent, branch, tombstones, row);
    }
    assert forall|suffix: Seq<u8>, value: Seq<u8>|
        is_root_suffix(suffix) && in_bounds(full_key(id, kind, suffix), start, end) implies (
    #[trigger] rows.contains((full_key(id, kind, suffix), value)) <==> view_get(
        store,
        id,
        full_key(id, kind, suffix),
    ) == Some(value)) by {
        law_scan_ranges_agree(id, kind, start, end, suffix);
        law_tombstone_scan_agrees(id, kind, start, end, suffix);
        lemma_tombstones_in_range(store, id, kind, start, end, tombstones, suffix);
        lemma_row_is_read(store, id, kind, parent, branch, tombstones, suffix, value);
    }
}

/// The operands of a merged scan have the shape that the merge expects.
proof fn lemma_scans_well_formed(
    store: Store,
    id: u32,
    kind: KeyPrefix,
    start: KeyBound<Seq<u8>>,
    end: KeyBound<Seq<u8>>,
    parent: Seq<Row>,
    branch: Seq<Row>,
)
    requires
        merged_kind(id, start, end) == Some(kind),
        keys_complete(store, kind),
        is_scan_of(store, parent_start(id, kind, start), parent_end(id, kind, end), parent),
        is_scan_of(store, branch_start(id, kind, start), branch_end(id, kind, end), branch),
    ensures
        is_parent_scan(kind, parent),
        is_branch_scan(id, kind, branch),
{
    assert forall|i: int| 0 <= i < parent.len() implies key_kind((#[trigger] parent[i]).0) == Some(
        kind,
    ) by {
        assert(parent.contains(parent[i]));
        lemma_parent_range_in_kind(id, kind, start, end, parent[i].0);
    }
    assert forall|i: int| 0 <= i < branch.len() implies is_scoped_key(id, (#[trigger] branch[i]).0)
        && key_kind(branch[i].0) == Some(kind) by {
        let key = branch[i].0;
        assert(branch.contains(branch[i]));
        lemma_branch_range_in_kind(id, kind, start, end, key);
        law_global_layout(id, kind);
        law_branch_range_own_rows(id, kind, start, end, key);
    }
}

/// A key in the branch's range of a merged scan is of the kind.
proof fn lemma_branch_range_in_kind(
    id: u32,
    kind: KeyPrefix,
    start: KeyBound<Seq<u8>>,
    end: KeyBound<Seq<u8>>,
    key: Seq<u8>,
)
    requires
        merged_kind(id, start, end) == Some(kind),
        in_bounds(key, branch_start(id, kind, start), branch_end(id, kind, end)),
    ensures
        key_kind(key) == Some(kind),
{
    let root = key_header(0, kind);
    let header = key_header(id, kind);
    let past = kind_end(kind);
    let empty = Seq::<u8>::empty();
    let start_key = bound_key(start)->0;
    let end_key = bound_key(end)->0;
    let first = bound_key(branch_start(id, kind, start))->0;
    let last = bound_key(branch_end(id, kind, end))->0;
    law_global_layout(0, kind);
    law_prefix_range_covers(id, kind, empty);
    assert(full_key(id, kind, empty) =~= header);
    assert(header =~= root + be32(id));
    lemma_lex_le_extension(root, be32(id));
    lemma_range_end_in_kind(id, kind);
    law_kind_of_key(start_key, kind);
    lemma_prefix_splits(start_key, root);
    lemma_lex_le_extension(root, start_key.subrange(root.len() as int, start_key.len() as int));
    law_kind_of_key(end_key, kind);
    lemma_byte_range(kind_domain(kind), kind_byte(kind), end_key);
    lemma_le_chain(root, header, range_end(id, kind));
    lemma_le_chain(header, range_end(id, kind), past);
    lemma_le_chain(root, first, key);
    lemma_le_chain(key, last, past);
    lemma_byte_range(kind_domain(kind), kind_byte(kind), key);
    law_kind_of_key(key, kind);
}

/// The end of a branch's slice is not past the end of the kind.
proof fn lemma_range_end_in_kind(id: u32, kind: KeyPrefix)
    requires
        kind_scoped(kind),
    ensures
        lex_le(range_end(id, kind), kind_end(kind)),
{
    if id != 0 && id < u32::MAX {
        let next = (id + 1) as u32;
        law_global_layout(0, kind);
        let end = range_end(id, kind);
        lemma_concat_parts(key_header(0, kind), be32(next));
        lemma_byte_range(kind_domain(kind), kind_byte(kind), end);
    }
}

proof fn lemma_row_in_bounds(
    store: Store,
    id: u32,
    kind: KeyPrefix,
    start: KeyBound<Seq<u8>>,
    end: KeyBound<Seq<u8>>,
    parent: Seq<Row>,
    branch: Seq<Row>,
    tombstones: Seq<Seq<u8>>,
    row: Row,
)
    requires
        merged_kind(id, start, end) == Some(kind),
        is_scan_of(store, parent_start(id, kind, start), parent_end(id, kind, end), parent),
        is_scan_of(store, branch_start(id, kind, start), branch_end(id, kind, end), branch),
        is_parent_scan(kind, parent),
        is_branch_scan(id, kind, branch),
        in_view(id, kind, tombstones, parent, branch, row),
    ensures
        in_bounds(row.0, start, end),
{
    if branch.contains(row) {
        let i = choose|i: int| 0 <= i < branch.len() && branch[i] == row;
        assert(is_scoped_key(id, branch[i].0));
        law_scoped_key_rebuilds(id, row.0);
        law_scan_ranges_agree(id, kind, start, end, key_suffix(id, row.0));
    } else {
        let i = choose|i: int|
            #![trigger parent[i]]
            0 <= i < parent.len() && parent_row_shows(id, tombstones, branch, parent[i]) && row
                == adopted_row(id, kind, parent[i]);
        assert(parent.contains(parent[i]));
        lemma_kind_is_root_key(kind, parent[i].0);
        law_scan_ranges_agree(id, kind, start, end, key_suffix(0, parent[i].0));
    }
}

/// The tombstone scan of a merged scan names an entry of the range exactly when
/// the branch has a tombstone for it.
proof fn lemma_tombstones_in_range(
    store: Store,
    id: u32,
    kind: KeyPrefix,
    start: KeyBound<Seq<u8>>,
    end: KeyBound<Seq<u8>>,
    tombstones: Seq<Seq<u8>>,
    suffix: Seq<u8>,
)
    requires
        merged_kind(id, start, end) == Some(kind),
        are_tombstones_of(
            store,
            id,
            tombstone_bound(id, parent_start(id, kind, start))->0,
            tombstone_bound(id, parent_end(id, kind, end))->0,
            tombstones,
        ),
        suffix.len() > 0,
        in_bounds(
            tombstone_row(id, kind, suffix),
            tombstone_bound(id, parent_start(id, kind, start))->0,
            tombstone_bound(id, parent_end(id, kind, end))->0,
        ),
    ensures
        tombstones.contains(suffix) <==> store.contains_key(tombstone_row(id, kind, suffix)),
{
    if tombstones.contains(suffix) {
        let other = choose|other: KeyPrefix|
            store.contains_key(#[trigger] tombstone_row(id, other, suffix)) && in_bounds(
                tombstone_row(id, other, suffix),
                tombstone_bound(id, parent_start(id, kind, start))->0,
                tombstone_bound(id, parent_end(id, kind, end))->0,
            );
        lemma_tombstone_range_in_kind(id, kind, start, end, other, suffix);
    }
}

/// An entry whose rows all three scans cover is in the view exactly when a
/// point read finds it.
proof fn lemma_row_is_read(
    store: Store,
    id: u32,
    kind: KeyPrefix,
    parent: Seq<Row>,
    branch: Seq<Row>,
    tombstones: Seq<Seq<u8>>,
    suffix: Seq<u8>,
    value: Seq<u8>,
)
    requires
        id != 0,
        kind_scoped(kind),
        is_parent_scan(kind, parent),
        is_branch_scan(id, kind, branch),
        is_root_suffix(suffix),
        forall|v: Seq<u8>| #[trigger]
            branch.contains((full_key(id, kind, suffix), v)) <==> raw_get(
                store,
                full_key(id, kind, suffix),
            ) == Some(v),
        forall|v: Seq<u8>| #[trigger]
            parent.contains((full_key(0, kind, suffix), v)) <==> raw_get(
                store,
                full_key(0, kind, suffix),
            ) == Some(v),
        tombstones.contains(suffix) <==> store.contains_key(tombstone_row(id, kind, suffix)),
    ensures
        in_view(id, kind, tombstones, parent, branch, (full_key(id, kind, suffix), value))
            <==> view_get(store, id, full_key(id, kind, suffix)) == Some(value),
{
    let own = full_key(id, kind, suffix);
    let root = full_key(0, kind, suffix);
    let row = (own, value);
    law_nearest_writer_wins(store, id, kind, suffix);
    law_full_key_parts(id, kind, suffix);
    law_full_key_parts(0, kind, suffix);
    lemma_be32_round_trip(0);
    assert(!branch_qualified(suffix));
    if store.contains_key(own) {
        let mine = (own, store[own]);
        assert(branch.contains(mine));
        let j = choose|j: int| 0 <= j < branch.len() && branch[j] == mine;
        if in_view(id, kind, tombstones, parent, branch, row) && !branch.contains(row) {
            let i = choose|i: int|
                #![trigger parent[i]]
                0 <= i < parent.len() && parent_row_shows(id, tombstones, branch, parent[i]) && row
                    == adopted_row(id, kind, parent[i]);
            law_full_key_injective(id, kind, key_suffix(0, parent[i].0), kind, suffix);
            assert(key_suffix(id, branch[j].0) == suffix);
        }
    } else {
        assert(!branch.contains(row));
        assert forall|j: int| 0 <= j < branch.len() implies key_suffix(id, (#[trigger] branch[j]).0)
            != suffix by {
            law_scoped_key_rebuilds(id, branch[j].0);
            assert(branch.contains((branch[j].0, branch[j].1)));
        }
        if in_view(id, kind, tombstones, parent, branch, row) {
            let i = choose|i: int|
                #![trigger parent[i]]
                0 <= i < parent.len() && parent_row_shows(id, tombstones, branch, parent[i]) && row
                    == adopted_row(id, kind, parent[i]);
            law_full_key_injective(id, kind, key_suffix(0, parent[i].0), kind, suffix);
            lemma_kind_is_root_key(kind, parent[i].0);
            assert(parent.contains((root, value)));
        }
        if !store.contains_key(tombstone_row(id, kind, suffix)) && raw_get(store, root) == Some(
            value,
        ) {
            let prow = (root, value);
            assert(parent.contains(prow));
            let i = choose|i: int| 0 <= i < parent.len() && parent[i] == prow;
            assert(key_suffix(0, parent[i].0) == suffix);
            assert(parent_row_shows(id, tombstones, branch, parent[i]));
        }
    }
}

/// What a prefix scan from `from` on yields: the stored rows under the prefix
/// at or past that point, in key order.
pub open spec fn is_prefix_scan_of(
    store: Store,
    prefix: Seq<u8>,
    from: Seq<u8>,
    rows: Seq<Row>,
) -> bool {
    &&& forall|i: int, j: int|
        0 <= i < j < rows.len() ==> lex_lt((#[trigger] rows[i]).0, (#[trigger] rows[j]).0)
    &&& forall|row: Row| #[trigger]
        rows.contains(row) <==> store.contains_key(row.0) && store[row.0] == row.1 && starts_with(
            row.0,
            prefix,
        ) && lex_le(prefix + from, row.0)
}

/// A merged prefix scan is the branch's view under the prefix: it fails on no
/// row, its keys ascend and lie under the prefix at or past the seek point,
/// and it yields a value under an entry's branch key exactly when a point read
/// of that key does.
pub proof fn law_merged_prefix_scan_is_branch_view(
    store: Store,
    id: u32,
    kind: KeyPrefix,
    under: Seq<u8>,
    from: Seq<u8>,
    parent: Seq<Row>,
    branch: Seq<Row>,
    tombstones: Seq<Seq<u8>>,
)
    requires
        id != 0,
        kind_scoped(kind),
        is_prefix_scan_of(store, full_key(0, kind, under), from, parent),
        is_prefix_scan_of(store, full_key(id, kind, under), from, branch),
        forall|suffix: Seq<u8>| #[trigger]
            tombstones.contains(suffix) <==> starts_with(suffix, under) && store.contains_key(
                tombstone_row(id, kind, suffix),
            ),
    ensures
        merged(id, tombstones, parent, branch).error is None,
        is_branch_scan(id, kind, merged(id, tombstones, parent, branch).rows),
        forall|row: Row| #[trigger]
            merged(id, tombstones, parent, branch).rows.contains(row) ==> starts_with(
                row.0,
                full_key(id, kind, under),
            ) && lex_le(full_key(id, kind, under) + from, row.0),
        forall|suffix: Seq<u8>, value: Seq<u8>|
            is_root_suffix(suffix) && starts_with(suffix, under) && lex_le(under + from, suffix)
                ==> (#[trigger] merged(id, tombstones, parent, branch).rows.contains(
                (full_key(id, kind, suffix), value),
            ) <==> view_get(store, id, full_key(id, kind, suffix)) == Some(value)),
{
    let rows = merged(id, tombstones, parent, branch).rows;
    let header = key_header(id, kind);
    assert forall|i: int| 0 <= i < parent.len() implies key_kind((#[trigger] parent[i]).0) == Some(
        kind,
    ) by {
        let key = parent[i].0;
        assert(parent.contains(parent[i]));
        lemma_under_prefix(0, kind, under, key);
    }
    assert forall|i: int| 0 <= i < branch.len() implies is_scoped_key(id, (#[trigger] branch[i]).0)
        && key_kind(branch[i].0) == Some(kind) by {
        let key = branch[i].0;
        assert(branch.contains(branch[i]));
        lemma_under_prefix(id, kind, under, key);
    }
    law_merge_yields_view(id, kind, tombstones, parent, branch);
    assert forall|row: Row| #[trigger] rows.contains(row) implies starts_with(
        row.0,
        full_key(id, kind, under),
    ) && lex_le(full_key(id, kind, under) + from, row.0) by {
        if !branch.contains(row) {
            let i = choose|i: int|
                #![trigger parent[i]]
                0 <= i < parent.len() && parent_row_shows(id, tombstones, branch, parent[i]) && row
                    == adopted_row(id, kind, parent[i]);
            assert(parent.contains(parent[i]));
            lemma_kind_is_root_key(kind, parent[i].0);
            law_prefix_scans_agree(id, kind, under, from, key_suffix(0, parent[i].0));
        }
    }
    assert forall|suffix: Seq<u8>, value: Seq<u8>|
        is_root_suffix(suffix) && starts_with(suffix, under) && lex_le(
            under + from,
            suffix,
        ) implies (#[trigger] rows.contains((full_key(id, kind, suffix), value)) <==> view_get(
        store,
        id,
        full_key(id, kind, suffix),
    ) == Some(value)) by {
        law_prefix_scans_agree(id, kind, under, from, suffix);
        lemma_starts_with_same_prefix(header, suffix, under);
        lemma_lex_lt_same_prefix(header, under + from, suffix);
        assert(full_key(id, kind, under) + from =~= header + (under + from));
        lemma_row_is_read(store, id, kind, parent, branch, tombstones, suffix, value);
    }
}

/// A key that begins with a full key of a scope is a key of that scope.
proof fn lemma_under_prefix(id: u32, kind: KeyPrefix, under: Seq<u8>, key: Seq<u8>)
    requires
        kind_scoped(kind),
        starts_with(key, full_key(id, kind, under)),
    ensures
        key_kind(key) == Some(kind),
        is_scoped_key(id, key),
{
    let prefix = full_key(id, kind, under);
    lemma_prefix_splits(key, prefix);
    let rest = key.subrange(prefix.len() as int, key.len() as int);
    assert(key =~= full_key(id, kind, under + rest));
    law_full_key_parts(id, kind, under + rest);
}

/// A scan of any range between two entries of a scoped kind, each end taken in or
/// left out, is the branch's view of that range. Where the parent is scanned
/// between its own rows of the two entries, the branch between its own, and the
/// tombstones between the rows that shadow them, the merge fails on no row, its
/// keys ascend and lie in the range, and it yields a value under an entry's branch
/// key exactly when a point read of that key does.
pub proof fn law_scan_between_entries_is_branch_view(
    store: Store,
    id: u32,
    kind: KeyPrefix,
    first: Seq<u8>,
    start_included: bool,
    last: Seq<u8>,
    end_included: bool,
    parent: Seq<Row>,
    branch: Seq<Row>,
    tombstones: Seq<Seq<u8>>,
)
    requires
        id != 0,
        kind_scoped(kind),
        keys_complete(store, kind),
        is_scan_of(
            store,
            bound_at(full_key(0, kind, first), start_included),
            bound_at(full_key(0, kind, last), end_included),
            parent,
        ),
        is_scan_of(
            store,
            bound_at(full_key(id, kind, first), start_included),
            bound_at(full_key(id, kind, last), end_included),
            branch,
        ),
        are_tombstones_of(
            store,
            id,
            bound_at(tombstone_row(id, kind, first), start_included),
            bound_at(tombstone_row(id, kind, last), end_included),
            tombstones,
        ),
    ensures
        ({
            let start = bound_at(full_key(id, kind, first), start_included);
            let end = bound_at(full_key(id, kind, last), end_included);
            let out = merged(id, tombstones, parent, branch);
            &&& merged_kind(id, start, end) == Some(kind)
            &&& out.error is None
            &&& is_branch_scan(id, kind, out.rows)
            &&& forall|row: Row| #[trigger] out.rows.contains(row) ==> in_bounds(row.0, start, end)
            &&& forall|suffix: Seq<u8>, value: Seq<u8>|
                is_root_suffix(suffix) && in_bounds(full_key(id, kind, suffix), start, end) ==> (
                #[trigger] out.rows.contains((full_key(id, kind, suffix), value)) <==> view_get(
                    store,
                    id,
                    full_key(id, kind, suffix),
                ) == Some(value))
        }),
{
    law_range_between_entries(id, kind, first, start_included, last, end_included);
    law_merged_scan_is_branch_view(
        store,
        id,
        kind,
        bound_at(full_key(id, kind, first), start_included),
        bound_at(full_key(id, kind, last), end_included),
        parent,
        branch,
        tombstones,
    );
}

/// A suffix read as a root row's names a branch exactly if it has four bytes and
/// one of them is not zero; the suffix of a root row begins with four zeros.
pub proof fn law_branch_field_of_a_suffix(suffix: Seq<u8>)
    ensures
        branch_qualified(suffix) <==> suffix.len() >= 4 && !(suffix[0] == 0 && suffix[1] == 0
            && suffix[2] == 0 && suffix[3] == 0),
        is_root_suffix(suffix) <==> suffix.len() >= 4 && suffix[0] == 0 && suffix[1] == 0
            && suffix[2] == 0 && suffix[3] == 0,
{
    lemma_be32_round_trip(0);
    let field = suffix.subrange(0, 4);
    law_big_endian_bytes_weigh(0, 0);
    if suffix.len() >= 4 {
        law_big_endian_values_weigh(field, seq![0u8, 0, 0, 0, 0, 0, 0, 0]);
        assert(field[0] == suffix[0] && field[1] == suffix[1] && field[2] == suffix[2] && field[3]
            == suffix[3]);
        assert(be32(0) =~= seq![0u8, 0, 0, 0]);
        if starts_with(suffix, be32(0)) {
            assert(field =~= be32(0));
        }
        if suffix[0] == 0 && suffix[1] == 0 && suffix[2] == 0 && suffix[3] == 0 {
            assert(field =~= be32(0));
        }
    }
}

/// What a merge of two scans of one kind keeps. Every row of the branch's is in it.
/// A row of the parent's is in it, under the branch's key of the entry, exactly if
/// its suffix names no branch, is none of the deleted suffixes, and no row of the
/// branch's has the same; and there is nothing else.
pub proof fn law_merge_keeps(
    id: u32,
    kind: KeyPrefix,
    tombstones: Seq<Seq<u8>>,
    parent: Seq<Row>,
    branch: Seq<Row>,
    suffix: Seq<u8>,
    value: Seq<u8>,
)
    requires
        id != 0,
        kind_scoped(kind),
        is_parent_scan(kind, parent),
        is_branch_scan(id, kind, branch),
    ensures
        merged(id, tombstones, parent, branch).rows.contains((full_key(id, kind, suffix), value))
            <==> {
            ||| branch.contains((full_key(id, kind, suffix), value))
            ||| {
                &&& parent.contains((full_key(0, kind, suffix), value))
                &&& suffix.len() < 4 || (suffix[0] == 0 && suffix[1] == 0 && suffix[2] == 0
                    && suffix[3] == 0)
                &&& !tombstones.contains(suffix)
                &&& forall|other: Seq<u8>| !#[trigger] branch.contains(
                    (full_key(id, kind, suffix), other),
                )
            }
        },
{
    let row = (full_key(id, kind, suffix), value);
    let theirs = (full_key(0, kind, suffix), value);
    law_merge_yields_view(id, kind, tombstones, parent, branch);
    law_branch_field_of_a_suffix(suffix);
    law_full_key_parts(id, kind, suffix);
    law_full_key_parts(0, kind, suffix);
    assert forall|j: int| 0 <= j < branch.len() implies (key_suffix(id, (#[trigger] branch[j]).0)
        == suffix <==> branch[j].0 == full_key(id, kind, suffix)) by {
        law_scoped_key_rebuilds(id, branch[j].0);
    }
    if in_view(id, kind, tombstones, parent, branch, row) && !branch.contains(row) {
        let i = choose|i: int|
            #![trigger parent[i]]
            0 <= i < parent.len() && parent_row_shows(id, tombstones, branch, parent[i]) && row
                == adopted_row(id, kind, parent[i]);
        let s = key_suffix(0, parent[i].0);
        law_full_key_injective(id, kind, s, kind, suffix);
        lemma_kind_is_root_key(kind, parent[i].0);
        assert(parent[i] == theirs);
        assert forall|other: Seq<u8>| !#[trigger] branch.contains(
            (full_key(id, kind, suffix), other),
        ) by {
            if branch.contains((full_key(id, kind, suffix), other)) {
                let j = choose|j: int|
                    0 <= j < branch.len() && branch[j] == (full_key(id, kind, suffix), other);
                assert(key_suffix(id, branch[j].0) == suffix);
            }
        }
    }
    if parent.contains(theirs) && !branch_qualified(suffix) && !tombstones.contains(suffix) && (
    forall|other: Seq<u8>| !#[trigger] branch.contains((full_key(id, kind, suffix), other))) {
        let i = choose|i: int| 0 <= i < parent.len() && parent[i] == theirs;
        assert forall|j: int| 0 <= j < branch.len() implies key_suffix(
            id,
            (#[trigger] branch[j]).0,
        ) != key_suffix(0, parent[i].0) by {
            if key_suffix(id, branch[j].0) == suffix {
                assert(branch.contains((full_key(id, kind, suffix), branch[j].1)));
            }
        }
        assert(parent_row_shows(id, tombstones, branch, parent[i]));
        assert(row == adopted_row(id, kind, parent[i]));
    }
}

/// A merge fails only on a row that is no scoped key of its scope. One whose rows
/// all are never fails; a failure on a parent row means that the parent has such
/// a row, and one on a branch row that the branch has; and no failure means that
/// the parent has none.
pub proof fn law_merge_fails_on_foreign_rows_only(
    id: u32,
    tombstones: Seq<Seq<u8>>,
    parent: Seq<Row>,
    branch: Seq<Row>,
)
    requires
        id != 0,
    ensures
        match merged(id, tombstones, parent, branch).error {
            Some(MergeError::ParentRow) => exists|i: int|
                0 <= i < parent.len() && scoped_suffix_of(0, (#[trigger] parent[i]).0) is None,
            Some(MergeError::BranchRow) => exists|i: int|
                0 <= i < branch.len() && scoped_suffix_of(id, (#[trigger] branch[i]).0) is None,
            None => forall|i: int|
                0 <= i < parent.len() ==> scoped_suffix_of(0, (#[trigger] parent[i]).0) is Some,
        },
    decreases parent.len() + branch.len(),
{
    let p1 = parent.drop_first();
    let b1 = branch.drop_first();
    if parent.len() > 0 {
        law_merge_fails_on_foreign_rows_only(id, tombstones, p1, branch);
        if scoped_suffix_of(0, parent[0].0) is None {
            assert(merged(id, tombstones, parent, branch).error == Some(MergeError::ParentRow));
        }
        assert forall|i: int| 0 < i < parent.len() implies #[trigger] parent[i] == p1[i - 1] by {}
        assert(forall|i: int| 0 <= i < p1.len() ==> #[trigger] p1[i] == parent[i + 1]);
    }
    if branch.len() > 0 {
        law_merge_fails_on_foreign_rows_only(id, tombstones, parent, b1);
        if parent.len() > 0 {
            law_merge_fails_on_foreign_rows_only(id, tombstones, p1, b1);
        }
        assert(forall|i: int| 0 <= i < b1.len() ==> #[trigger] b1[i] == branch[i + 1]);
    }
}

/// A merge stops at a foreign first row of the parent's, with nothing put out. It
/// stops likewise at a foreign first row of the branch's that has to be compared
/// with a row of the parent's.
pub proof fn law_merge_stops_at_a_foreign_row(
    id: u32,
    tombstones: Seq<Seq<u8>>,
    parent: Seq<Row>,
    branch: Seq<Row>,
)
    requires
        parent.len() > 0,
    ensures
        scoped_suffix_of(0, parent[0].0) is None ==> {
            &&& merged(id, tombstones, parent, branch).error == Some(MergeError::ParentRow)
            &&& merged(id, tombstones, parent, branch).rows.len() == 0
        },
        branch.len() > 0 && scoped_suffix_of(0, parent[0].0) is Some && !branch_qualified(
            scoped_suffix_of(0, parent[0].0)->0,
        ) && scoped_suffix_of(id, branch[0].0) is None ==> {
            &&& merged(id, tombstones, parent, branch).error == Some(MergeError::BranchRow)
            &&& merged(id, tombstones, parent, branch).rows.len() == 0
        },
{
}

/// A scan between two entries yields every row of the branch's own in the range,
/// and of an entry whose number takes more than four bytes nothing else: the
/// parent's rows of such entries are taken for a branch's.
pub proof fn law_scan_between_entries_keeps_own_rows(
    store: Store,
    id: u32,
    kind: KeyPrefix,
    first: Seq<u8>,
    start_included: bool,
    last: Seq<u8>,
    end_included: bool,
    parent: Seq<Row>,
    branch: Seq<Row>,
    tombstones: Seq<Seq<u8>>,
    suffix: Seq<u8>,
    value: Seq<u8>,
)
    requires
        id != 0,
        kind_scoped(kind),
        keys_complete(store, kind),
        is_scan_of(
            store,
            bound_at(full_key(0, kind, first), start_included),
            bound_at(full_key(0, kind, last), end_included),
            parent,
        ),
        is_scan_of(
            store,
            bound_at(full_key(id, kind, first), start_included),
            bound_at(full_key(id, kind, last), end_included),
            branch,
        ),
        in_bounds(
            full_key(id, kind, suffix),
            bound_at(full_key(id, kind, first), start_included),
            bound_at(full_key(id, kind, last), end_included),
        ),
    ensures
        raw_get(store, full_key(id, kind, suffix)) == Some(value) ==> merged(
            id,
            tombstones,
            parent,
            branch,
        ).rows.contains((full_key(id, kind, suffix), value)),
        !is_root_suffix(suffix) ==> (merged(id, tombstones, parent, branch).rows.contains(
            (full_key(id, kind, suffix), value),
        ) <==> raw_get(store, full_key(id, kind, suffix)) == Some(value)),
{
    let start = bound_at(full_key(id, kind, first), start_included);
    let end = bound_at(full_key(id, kind, last), end_included);
    law_range_between_entries(id, kind, first, start_included, last, end_included);
    lemma_scans_well_formed(store, id, kind, start, end, parent, branch);
    law_merge_keeps(id, kind, tombstones, parent, branch, suffix, value);
    law_branch_field_of_a_suffix(suffix);
    law_full_key_parts(0, kind, suffix);
    let theirs = full_key(0, kind, suffix);
    if parent.contains((theirs, value)) {
        assert(store.contains_key(theirs));
        assert(theirs.len() == key_header(0, kind).len() + suffix.len());
    }
    assert(branch.contains((full_key(id, kind, suffix), value)) <==> raw_get(
        store,
        full_key(id, kind, suffix),
    ) == Some(value));
}

} // verus!
