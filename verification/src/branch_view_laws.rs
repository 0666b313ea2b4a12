//! What holds of a branch's view across reads, writes and deletes.

use crate::branch_view::{
    delete_ops, is_scoped_kind, lemma_replay_one, raw_get, view_delete, view_get, Store,
};
use crate::encoding::{be32, lemma_be32_round_trip, starts_with};
use crate::key_codec::{
    full_key, is_scoped_key, key_header, key_kind, key_suffix, kind_scoped, parent_key_of,
    scoped_suffix_of, tombstone_key_of, tombstone_row, KeyPrefix, BRANCH_TOMBSTONE_RECORD_VERSION,
};
use crate::key_laws::{
    law_full_key_parts, law_kind_of_key, law_scoped_key_rebuilds, law_scopes_apart, law_strip_adopt,
    law_tombstone_names_parent_key, law_tombstone_row_injective,
};
use crate::transaction::Op;
use vstd::prelude::*;

verus! {

/// The rows that a delete leaves: without the row that the branch has, or with
/// a tombstone where only the parent has one, or as they were.
pub proof fn law_delete_leaves(store: Store, branch: u32, key: Seq<u8>)
    ensures
        view_delete(store, branch, key) == if !is_scoped_kind(key) || store.contains_key(key) {
            Some(store.remove(key))
        } else {
            match (tombstone_key_of(branch, key), parent_key_of(branch, key)) {
                (Some(tombstone), Some(parent)) => if store.contains_key(parent) {
                    Some(store.insert(tombstone, seq![BRANCH_TOMBSTONE_RECORD_VERSION]))
                } else {
                    Some(store)
                },
                _ => None,
            }
        },
{
    match delete_ops(store, branch, key) {
        Some(ops) => if ops.len() > 0 {
            assert(ops =~= seq![ops[0]]);
            lemma_replay_one(store, ops[0]);
        } else {
            assert(ops =~= Seq::empty());
        },
        None => {},
    }
}

/// The suffix of a root row, whose leading id or timestamp is below 2^32: its
/// first four bytes are zero, so they cannot be taken for a branch id.
pub open spec fn is_root_suffix(suffix: Seq<u8>) -> bool {
    starts_with(suffix, be32(0))
}

/// A handle on the root, and any handle on a key of an unscoped kind, reads
/// the row as stored.
pub proof fn law_global_keys_read_raw(store: Store, branch: u32, key: Seq<u8>)
    requires
        branch == 0 || !is_scoped_kind(key),
    ensures
        view_get(store, branch, key) == raw_get(store, key),
{
}

/// Resolution of a branch's read: its own row, else nothing where it has a
/// tombstone, else the parent's row.
pub proof fn law_nearest_writer_wins(
    store: Store,
    branch: u32,
    kind: KeyPrefix,
    suffix: Seq<u8>,
)
    requires
        branch != 0,
        kind_scoped(kind),
    ensures
        view_get(store, branch, full_key(branch, kind, suffix)) == if store.contains_key(
            full_key(branch, kind, suffix),
        ) {
            Some(store[full_key(branch, kind, suffix)])
        } else if store.contains_key(tombstone_row(branch, kind, suffix)) {
            None
        } else {
            raw_get(store, full_key(0, kind, suffix))
        },
{
    law_strip_adopt(branch, kind, suffix);
    law_tombstone_names_parent_key(branch, kind, suffix);
}

/// A handle reads back what was written under a key.
pub proof fn law_reads_own_write(store: Store, branch: u32, key: Seq<u8>, value: Seq<u8>)
    ensures
        view_get(store.insert(key, value), branch, key) == Some(value),
{
}

/// After a delete the branch no longer sees the key. The exception is a
/// branch row that shadows a parent row without a tombstone: deleting it is a
/// real delete, and the parent's row shows again.
pub proof fn law_deleted_key_is_absent(store: Store, branch: u32, key: Seq<u8>)
    requires
        branch != 0,
        view_delete(store, branch, key) is Some,
        store.contains_key(key) && parent_key_of(branch, key) is Some && store.contains_key(
            parent_key_of(branch, key)->0,
        ) ==> store.contains_key(tombstone_key_of(branch, key)->0),
    ensures
        view_get(view_delete(store, branch, key)->0, branch, key) is None,
{
    law_delete_leaves(store, branch, key);
    if is_scoped_key(branch, key) {
        lemma_own_rows_apart(branch, key);
    }
}

/// A key, its tombstone and, where the first four bytes of the suffix are not
/// the branch's id, its parent key are different rows.
proof fn lemma_own_rows_apart(branch: u32, key: Seq<u8>)
    requires
        branch != 0,
        is_scoped_key(branch, key),
    ensures
        tombstone_key_of(branch, key)->0 != key,
        tombstone_key_of(branch, key)->0 != parent_key_of(branch, key)->0,
        parent_key_of(branch, key)->0 != key,
{
    let kind = key_kind(key)->0;
    let suffix = key_suffix(branch, key);
    law_scoped_key_rebuilds(branch, key);
    law_tombstone_names_parent_key(branch, kind, suffix);
    law_full_key_parts(branch, kind, suffix);
    law_full_key_parts(0, kind, suffix);
    assert(full_key(branch, kind, suffix).len() != full_key(0, kind, suffix).len());
}

/// A delete through a branch handle changes no row but the key itself and
/// the key's tombstone.
pub proof fn law_delete_touches_one_entry(store: Store, branch: u32, key: Seq<u8>, other: Seq<u8>)
    requires
        view_delete(store, branch, key) is Some,
        other != key,
        tombstone_key_of(branch, key) != Some(other),
    ensures
        raw_get(view_delete(store, branch, key)->0, other) == raw_get(store, other),
{
    law_delete_leaves(store, branch, key);
}

/// `store` with its row under `key` set, or removed.
pub open spec fn with_row(store: Store, key: Seq<u8>, row: Option<Seq<u8>>) -> Store {
    match row {
        Some(value) => store.insert(key, value),
        None => store.remove(key),
    }
}

/// A delete of a row that only the parent has keeps the parent's row, and the
/// branch keeps seeing nothing whatever the parent does with it later.
pub proof fn law_tombstone_keeps_shadowing(
    store: Store,
    branch: u32,
    kind: KeyPrefix,
    suffix: Seq<u8>,
    parent_row_later: Option<Seq<u8>>,
)
    requires
        branch != 0,
        kind_scoped(kind),
        !store.contains_key(full_key(branch, kind, suffix)),
        store.contains_key(full_key(0, kind, suffix)),
    ensures
        raw_get(
            view_delete(store, branch, full_key(branch, kind, suffix))->0,
            full_key(0, kind, suffix),
        ) == raw_get(store, full_key(0, kind, suffix)),
        view_get(
            with_row(
                view_delete(store, branch, full_key(branch, kind, suffix))->0,
                full_key(0, kind, suffix),
                parent_row_later,
            ),
            branch,
            full_key(branch, kind, suffix),
        ) is None,
{
    let key = full_key(branch, kind, suffix);
    law_delete_leaves(store, branch, key);
    law_full_key_parts(branch, kind, suffix);
    law_strip_adopt(branch, kind, suffix);
    law_tombstone_names_parent_key(branch, kind, suffix);
    lemma_own_rows_apart(branch, key);
}

/// A delete of an entry that neither scope has changes nothing.
pub proof fn law_delete_of_absent_is_no_op(
    store: Store,
    branch: u32,
    kind: KeyPrefix,
    suffix: Seq<u8>,
)
    requires
        branch != 0,
        kind_scoped(kind),
        !store.contains_key(full_key(branch, kind, suffix)),
        !store.contains_key(full_key(0, kind, suffix)),
    ensures
        view_delete(store, branch, full_key(branch, kind, suffix)) == Some(store),
{
    law_delete_leaves(store, branch, full_key(branch, kind, suffix));
    law_full_key_parts(branch, kind, suffix);
    law_strip_adopt(branch, kind, suffix);
    law_tombstone_names_parent_key(branch, kind, suffix);
}

/// What a branch writes or deletes under its scoped keys is invisible to the
/// parent.
pub proof fn law_branch_invisible_to_parent(
    store: Store,
    branch: u32,
    kind: KeyPrefix,
    suffix: Seq<u8>,
    value: Seq<u8>,
    parent_kind: KeyPrefix,
    parent_suffix: Seq<u8>,
)
    requires
        branch != 0,
        kind_scoped(kind),
        kind_scoped(parent_kind),
        is_root_suffix(parent_suffix),
    ensures
        raw_get(
            store.insert(full_key(branch, kind, suffix), value),
            full_key(0, parent_kind, parent_suffix),
        ) == raw_get(store, full_key(0, parent_kind, parent_suffix)),
        view_delete(store, branch, full_key(branch, kind, suffix)) is Some,
        raw_get(
            view_delete(store, branch, full_key(branch, kind, suffix))->0,
            full_key(0, parent_kind, parent_suffix),
        ) == raw_get(store, full_key(0, parent_kind, parent_suffix)),
{
    let key = full_key(branch, kind, suffix);
    law_delete_leaves(store, branch, key);
    let parent = full_key(0, parent_kind, parent_suffix);
    lemma_root_row_apart(branch, kind, suffix, parent_kind, parent_suffix);
    law_full_key_parts(branch, kind, suffix);
    law_strip_adopt(branch, kind, suffix);
    law_tombstone_names_parent_key(branch, kind, suffix);
    law_delete_touches_one_entry(store, branch, key, parent);
}

/// A root row is no row of a branch, nor one of its tombstones.
pub proof fn lemma_root_row_apart(
    branch: u32,
    kind: KeyPrefix,
    suffix: Seq<u8>,
    parent_kind: KeyPrefix,
    parent_suffix: Seq<u8>,
)
    requires
        branch != 0,
        kind_scoped(kind),
        kind_scoped(parent_kind),
        is_root_suffix(parent_suffix),
    ensures
        full_key(0, parent_kind, parent_suffix) != full_key(branch, kind, suffix),
        full_key(0, parent_kind, parent_suffix) != tombstone_row(branch, kind, suffix),
{
    law_full_key_parts(branch, kind, suffix);
    law_full_key_parts(0, parent_kind, parent_suffix);
    law_tombstone_names_parent_key(branch, kind, suffix);
    law_scopes_apart(branch, 0, parent_kind, parent_suffix);
    lemma_be32_round_trip(0);
    lemma_be32_round_trip(branch);
    assert(!starts_with(parent_suffix, be32(branch)));
}

/// What a branch writes or deletes under its scoped keys is invisible to its
/// siblings.
pub proof fn law_branch_invisible_to_sibling(
    store: Store,
    branch: u32,
    kind: KeyPrefix,
    suffix: Seq<u8>,
    value: Seq<u8>,
    sibling: u32,
    sibling_kind: KeyPrefix,
    sibling_suffix: Seq<u8>,
)
    requires
        branch != 0,
        sibling != 0,
        sibling != branch,
        kind_scoped(kind),
        kind_scoped(sibling_kind),
        is_root_suffix(sibling_suffix),
    ensures
        view_get(
            store.insert(full_key(branch, kind, suffix), value),
            sibling,
            full_key(sibling, sibling_kind, sibling_suffix),
        ) == view_get(store, sibling, full_key(sibling, sibling_kind, sibling_suffix)),
        view_get(
            view_delete(store, branch, full_key(branch, kind, suffix))->0,
            sibling,
            full_key(sibling, sibling_kind, sibling_suffix),
        ) == view_get(store, sibling, full_key(sibling, sibling_kind, sibling_suffix)),
{
    let key = full_key(branch, kind, suffix);
    law_delete_leaves(store, branch, key);
    let other = full_key(sibling, sibling_kind, sibling_suffix);
    law_strip_adopt(branch, kind, suffix);
    law_strip_adopt(sibling, sibling_kind, sibling_suffix);
    law_tombstone_names_parent_key(branch, kind, suffix);
    law_tombstone_names_parent_key(sibling, sibling_kind, sibling_suffix);
    law_full_key_parts(branch, kind, suffix);
    law_full_key_parts(sibling, sibling_kind, sibling_suffix);
    law_scopes_apart(branch, sibling, sibling_kind, sibling_suffix);
    lemma_root_row_apart(branch, kind, suffix, sibling_kind, sibling_suffix);
    let parent = full_key(0, sibling_kind, sibling_suffix);
    let tombstone = tombstone_row(sibling, sibling_kind, sibling_suffix);
    assert(other != key);
    assert(tombstone != key);
    if tombstone == tombstone_row(branch, kind, suffix) {
        law_tombstone_row_injective(branch, kind, suffix, sibling, sibling_kind, sibling_suffix);
    }
    assert(other != tombstone_row(branch, kind, suffix));
    law_delete_touches_one_entry(store, branch, key, other);
    law_delete_touches_one_entry(store, branch, key, tombstone);
    law_delete_touches_one_entry(store, branch, key, parent);
}

/// Writing one of a branch's entries changes no other entry of its view.
pub proof fn law_branch_entries_independent(
    store: Store,
    branch: u32,
    kind: KeyPrefix,
    suffix: Seq<u8>,
    value: Seq<u8>,
    other_kind: KeyPrefix,
    other_suffix: Seq<u8>,
)
    requires
        branch != 0,
        kind_scoped(kind),
        kind_scoped(other_kind),
        is_root_suffix(other_suffix),
        kind != other_kind || suffix != other_suffix,
    ensures
        view_get(
            store.insert(full_key(branch, kind, suffix), value),
            branch,
            full_key(branch, other_kind, other_suffix),
        ) == view_get(store, branch, full_key(branch, other_kind, other_suffix)),
        view_get(
            view_delete(store, branch, full_key(branch, kind, suffix))->0,
            branch,
            full_key(branch, other_kind, other_suffix),
        ) == view_get(store, branch, full_key(branch, other_kind, other_suffix)),
{
    let key = full_key(branch, kind, suffix);
    law_delete_leaves(store, branch, key);
    let other = full_key(branch, other_kind, other_suffix);
    let parent = full_key(0, other_kind, other_suffix);
    let tombstone = tombstone_row(branch, other_kind, other_suffix);
    law_strip_adopt(branch, kind, suffix);
    law_strip_adopt(branch, other_kind, other_suffix);
    law_tombstone_names_parent_key(branch, kind, suffix);
    law_tombstone_names_parent_key(branch, other_kind, other_suffix);
    law_full_key_parts(branch, kind, suffix);
    law_full_key_parts(branch, other_kind, other_suffix);
    lemma_root_row_apart(branch, kind, suffix, other_kind, other_suffix);
    if tombstone == tombstone_row(branch, kind, suffix) {
        law_tombstone_row_injective(branch, kind, suffix, branch, other_kind, other_suffix);
    }
    law_delete_touches_one_entry(store, branch, key, other);
    law_delete_touches_one_entry(store, branch, key, tombstone);
    law_delete_touches_one_entry(store, branch, key, parent);
}

/// A key that is no scoped key of the branch is read as stored, whatever else the
/// branch and its parent hold.
pub proof fn law_other_keys_read_raw(store: Store, branch: u32, key: Seq<u8>)
    requires
        branch == 0 || scoped_suffix_of(branch, key) is None,
    ensures
        view_get(store, branch, key) == if store.contains_key(key) {
            Some(store[key])
        } else {
            None
        },
{
}

/// A delete of a scoped key of the branch: the row itself where the branch has it,
/// a tombstone where only the parent has the entry, and nothing where neither
/// does. It looks at no other row.
pub proof fn law_delete_of_an_entry(
    store: Store,
    branch: u32,
    kind: KeyPrefix,
    suffix: Seq<u8>,
)
    requires
        branch != 0,
        kind_scoped(kind),
    ensures
        ({
            let own = full_key(branch, kind, suffix);
            let staged = delete_ops(store, branch, own);
            &&& store.contains_key(own) ==> staged == Some(seq![Op::Delete { key: own }])
            &&& !store.contains_key(own) && store.contains_key(full_key(0, kind, suffix))
                ==> staged == Some(
                seq![Op::Put { key: tombstone_row(branch, kind, suffix), value: seq![1u8] }],
            )
            &&& !store.contains_key(own) && !store.contains_key(full_key(0, kind, suffix))
                ==> staged == Some(Seq::<Op>::empty())
        }),
{
    law_full_key_parts(branch, kind, suffix);
    law_strip_adopt(branch, kind, suffix);
    law_tombstone_names_parent_key(branch, kind, suffix);
}

/// A delete of a key that is no scoped key of the branch: of an unscoped kind it
/// is staged as it is; of a scoped kind it is too where the row exists, and
/// refused where it does not.
pub proof fn law_delete_of_another_key(store: Store, branch: u32, key: Seq<u8>)
    requires
        branch != 0,
        scoped_suffix_of(branch, key) is None,
    ensures
        delete_ops(store, branch, key) == if store.contains_key(key) || forall|kind: KeyPrefix|
            kind_scoped(kind) ==> !#[trigger] starts_with(key, key_header(0, kind)) {
            Some(seq![Op::Delete { key }])
        } else {
            None
        },
{
    match key_kind(key) {
        Some(kind) => {
            law_kind_of_key(key, kind);
            if !kind_scoped(kind) {
                assert forall|other: KeyPrefix| kind_scoped(other) implies !#[trigger] starts_with(
                    key,
                    key_header(0, other),
                ) by {
                    law_kind_of_key(key, other);
                }
            } else {
                assert(starts_with(key, key_header(0, kind)));
            }
        },
        None => {
            assert forall|other: KeyPrefix| kind_scoped(other) implies !#[trigger] starts_with(
                key,
                key_header(0, other),
            ) by {
                law_kind_of_key(key, other);
            }
        },
    }
}

} // verus!
