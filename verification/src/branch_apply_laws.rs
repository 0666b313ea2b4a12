//! What holds of whole transactions through a branch handle.

use crate::branch_apply::{branch_batch, remap};
use crate::branch_view::{delete_ops, lemma_replay_one, raw_get, view_get, Store};
use crate::branch_view_laws::{is_root_suffix, law_deleted_key_is_absent, lemma_root_row_apart};
use crate::key_codec::{
    full_key, is_scoped_key, key_kind, key_suffix, kind_scoped, parent_key_of, tombstone_key_of,
    tombstone_row, KeyPrefix,
};
use crate::key_laws::{
    law_full_key_parts, law_scoped_key_rebuilds, law_scopes_apart, law_strip_adopt,
    law_tombstone_names_parent_key, law_tombstone_row_injective,
};
use crate::transaction::{law_replay_merges, op_key, replay, Op};
use vstd::prelude::*;

verus! {

/// Every operation is on a scoped key of `branch`.
pub open spec fn on_branch_keys(branch: u32, ops: Seq<Op>) -> bool {
    forall|i: int| 0 <= i < ops.len() ==> is_scoped_key(branch, op_key(#[trigger] ops[i]))
}

/// An operation on a row of `branch`: one of its scoped keys, or the tombstone
/// of one.
pub open spec fn touches_branch_row(branch: u32, op: Op) -> bool {
    is_scoped_key(branch, op_key(op)) || exists|kind: KeyPrefix, suffix: Seq<u8>|
        kind_scoped(kind) && op_key(op) == #[trigger] tombstone_row(branch, kind, suffix)
}

/// A transaction on a branch's scoped keys touches only that branch's rows.
proof fn lemma_batch_stays_in_branch(store: Store, branch: u32, ops: Seq<Op>)
    requires
        branch != 0,
        on_branch_keys(branch, ops),
        branch_batch(store, branch, ops) is Some,
    ensures
        forall|i: int|
            0 <= i < branch_batch(store, branch, ops)->0.len() ==> touches_branch_row(
                branch,
                #[trigger] branch_batch(store, branch, ops)->0[i],
            ),
    decreases ops.len(),
{
    if ops.len() > 0 {
        let rest = ops.drop_first();
        let first = remap(store, branch, ops[0])->0;
        let others = branch_batch(store, branch, rest)->0;
        lemma_batch_stays_in_branch(store, branch, rest);
        let batch = branch_batch(store, branch, ops)->0;
        assert(batch == first + others);
        assert(is_scoped_key(branch, op_key(ops[0])));
        assert forall|i: int| 0 <= i < batch.len() implies touches_branch_row(
            branch,
            #[trigger] batch[i],
        ) by {
            if i < first.len() {
                let key = op_key(ops[0]);
                assert(batch[i] == first[i]);
                assert(tombstone_row(branch, key_kind(key)->0, key_suffix(branch, key))
                    == tombstone_key_of(branch, key)->0);
            } else {
                assert(batch[i] == others[i - first.len()]);
            }
        }
    }
}

/// A row that no operation touches is as before.
pub proof fn law_replay_keeps_untouched(store: Store, ops: Seq<Op>, key: Seq<u8>)
    requires
        forall|i: int| 0 <= i < ops.len() ==> op_key(#[trigger] ops[i]) != key,
    ensures
        raw_get(replay(store, ops), key) == raw_get(store, key),
    decreases ops.len(),
{
    if ops.len() > 0 {
        let init = ops.drop_last();
        assert forall|i: int| 0 <= i < init.len() implies op_key(#[trigger] init[i]) != key by {
            assert(init[i] == ops[i]);
        }
        law_replay_keeps_untouched(store, init, key);
        assert(op_key(ops[ops.len() - 1]) != key);
    }
}

/// A whole transaction on a branch's scoped keys is invisible to the parent:
/// no root row changes.
pub proof fn law_branch_batch_invisible_to_parent(
    store: Store,
    branch: u32,
    ops: Seq<Op>,
    kind: KeyPrefix,
    suffix: Seq<u8>,
)
    requires
        branch != 0,
        on_branch_keys(branch, ops),
        kind_scoped(kind),
        is_root_suffix(suffix),
    ensures
        branch_batch(store, branch, ops) is Some,
        raw_get(replay(store, branch_batch(store, branch, ops)->0), full_key(0, kind, suffix))
            == raw_get(store, full_key(0, kind, suffix)),
{
    lemma_batch_accepted(store, branch, ops);
    lemma_batch_stays_in_branch(store, branch, ops);
    let batch = branch_batch(store, branch, ops)->0;
    let root = full_key(0, kind, suffix);
    assert forall|i: int| 0 <= i < batch.len() implies op_key(#[trigger] batch[i]) != root by {
        lemma_branch_row_is_no_root_row(branch, batch[i], kind, suffix);
    }
    law_replay_keeps_untouched(store, batch, root);
}

/// A transaction on a branch's own scoped keys is never refused.
proof fn lemma_batch_accepted(store: Store, branch: u32, ops: Seq<Op>)
    requires
        branch != 0,
        on_branch_keys(branch, ops),
    ensures
        branch_batch(store, branch, ops) is Some,
    decreases ops.len(),
{
    if ops.len() > 0 {
        assert(is_scoped_key(branch, op_key(ops[0])));
        lemma_batch_accepted(store, branch, ops.drop_first());
    }
}

/// The batch of two runs of operations is the two batches one after the other.
proof fn lemma_batch_concat(store: Store, branch: u32, first: Seq<Op>, second: Seq<Op>)
    ensures
        branch_batch(store, branch, first + second) == match (
            branch_batch(store, branch, first),
            branch_batch(store, branch, second),
        ) {
            (Some(a), Some(b)) => Some(a + b),
            _ => None,
        },
    decreases first.len(),
{
    if first.len() == 0 {
        assert(first + second =~= second);
        match branch_batch(store, branch, second) {
            Some(b) => {
                assert(Seq::<Op>::empty() + b =~= b);
            },
            None => {},
        }
    } else {
        let rest = first.drop_first();
        assert((first + second).drop_first() =~= rest + second);
        assert((first + second)[0] == first[0]);
        lemma_batch_concat(store, branch, rest, second);
        match (
            remap(store, branch, first[0]),
            branch_batch(store, branch, rest),
            branch_batch(store, branch, second),
        ) {
            (Some(a), Some(b), Some(c)) => {
                assert(a + (b + c) =~= (a + b) + c);
            },
            _ => {},
        }
    }
}

/// The batch of operations on other entries touches neither an entry's own row
/// nor its tombstone.
proof fn lemma_batch_avoids(store: Store, branch: u32, ops: Seq<Op>, key: Seq<u8>)
    requires
        branch != 0,
        is_scoped_key(branch, key),
        on_branch_keys(branch, ops),
        forall|i: int| 0 <= i < ops.len() ==> op_key(#[trigger] ops[i]) != key,
        branch_batch(store, branch, ops) is Some,
    ensures
        forall|i: int|
            0 <= i < branch_batch(store, branch, ops)->0.len() ==> {
                &&& op_key(#[trigger] branch_batch(store, branch, ops)->0[i]) != key
                &&& op_key(branch_batch(store, branch, ops)->0[i]) != tombstone_key_of(
                    branch,
                    key,
                )->0
            },
    decreases ops.len(),
{
    if ops.len() > 0 {
        let rest = ops.drop_first();
        let other = op_key(ops[0]);
        let first = remap(store, branch, ops[0])->0;
        let others = branch_batch(store, branch, rest)->0;
        let batch = branch_batch(store, branch, ops)->0;
        assert(is_scoped_key(branch, op_key(ops[0])) && op_key(ops[0]) != key);
        assert forall|i: int| 0 <= i < rest.len() implies is_scoped_key(
            branch,
            op_key(#[trigger] rest[i]),
        ) && op_key(rest[i]) != key by {
            assert(rest[i] == ops[i + 1]);
        }
        lemma_batch_avoids(store, branch, rest, key);
        lemma_entry_rows_apart(branch, other, key);
        assert(batch == first + others);
        assert forall|i: int| 0 <= i < batch.len() implies op_key(#[trigger] batch[i]) != key
            && op_key(batch[i]) != tombstone_key_of(branch, key)->0 by {
            if i < first.len() {
                assert(batch[i] == first[i]);
            } else {
                assert(batch[i] == others[i - first.len()]);
            }
        }
    }
}

/// Different entries of a branch have different rows and tombstones, and no
/// row is a tombstone.
proof fn lemma_entry_rows_apart(branch: u32, a: Seq<u8>, b: Seq<u8>)
    requires
        branch != 0,
        is_scoped_key(branch, a),
        is_scoped_key(branch, b),
    ensures
        tombstone_key_of(branch, a)->0 != b,
        a != b ==> tombstone_key_of(branch, a)->0 != tombstone_key_of(branch, b)->0,
        a != tombstone_key_of(branch, b)->0,
{
    let ka = key_kind(a)->0;
    let kb = key_kind(b)->0;
    let sa = key_suffix(branch, a);
    let sb = key_suffix(branch, b);
    law_scoped_key_rebuilds(branch, a);
    law_scoped_key_rebuilds(branch, b);
    law_tombstone_names_parent_key(branch, ka, sa);
    law_tombstone_names_parent_key(branch, kb, sb);
    if tombstone_key_of(branch, a)->0 == tombstone_key_of(branch, b)->0 {
        law_tombstone_row_injective(branch, ka, sa, branch, kb, sb);
    }
}

/// Parts of a transaction around one of its operations.
proof fn lemma_split_at(ops: Seq<Op>, i: int)
    requires
        0 <= i < ops.len(),
    ensures
        ops == ops.subrange(0, i) + (seq![ops[i]] + ops.subrange(i + 1, ops.len() as int)),
{
    assert(ops =~= ops.subrange(0, i) + (seq![ops[i]] + ops.subrange(i + 1, ops.len() as int)));
}

/// A branch reads what a transaction put last under a key.
pub proof fn law_transaction_put_is_read(
    store: Store,
    branch: u32,
    ops: Seq<Op>,
    i: int,
    key: Seq<u8>,
    value: Seq<u8>,
)
    requires
        branch != 0,
        on_branch_keys(branch, ops),
        0 <= i < ops.len(),
        ops[i] == (Op::Put { key, value }),
        forall|j: int| i < j < ops.len() ==> op_key(#[trigger] ops[j]) != key,
    ensures
        branch_batch(store, branch, ops) is Some,
        view_get(replay(store, branch_batch(store, branch, ops)->0), branch, key) == Some(value),
{
    let before = ops.subrange(0, i);
    let after = ops.subrange(i + 1, ops.len() as int);
    let one = seq![ops[i]];
    assert(is_scoped_key(branch, op_key(ops[i])));
    assert forall|j: int| 0 <= j < before.len() implies is_scoped_key(
        branch,
        op_key(#[trigger] before[j]),
    ) by {
        assert(before[j] == ops[j]);
    }
    assert forall|j: int| 0 <= j < after.len() implies is_scoped_key(
        branch,
        op_key(#[trigger] after[j]),
    ) && op_key(after[j]) != key by {
        assert(after[j] == ops[i + 1 + j]);
    }
    lemma_batch_accepted(store, branch, ops);
    lemma_batch_accepted(store, branch, before);
    lemma_batch_accepted(store, branch, after);
    lemma_split_at(ops, i);
    lemma_batch_concat(store, branch, before, one + after);
    lemma_batch_concat(store, branch, one, after);
    lemma_batch_of_one(store, branch, ops[i]);
    lemma_batch_avoids(store, branch, after, key);
    let x = branch_batch(store, branch, before)->0;
    let y = branch_batch(store, branch, after)->0;
    law_replay_merges(store, x, one + y);
    law_replay_merges(replay(store, x), one, y);
    lemma_replay_one(replay(store, x), ops[i]);
    law_replay_keeps_untouched(replay(replay(store, x), one), y, key);
}

/// The batch of a single operation is what it is remapped to.
proof fn lemma_batch_of_one(store: Store, branch: u32, op: Op)
    ensures
        branch_batch(store, branch, seq![op]) == remap(store, branch, op),
{
    let one = seq![op];
    assert(one.drop_first() =~= Seq::empty());
    assert(branch_batch(store, branch, Seq::empty()) == Some(Seq::<Op>::empty()));
    match remap(store, branch, op) {
        Some(ops) => {
            assert(ops + Seq::<Op>::empty() =~= ops);
        },
        None => {},
    }
}

/// A branch no longer sees what a transaction deleted, where the transaction
/// has no other operation on the key. The exception is again a branch row that
/// shadows a parent row without a tombstone.
pub proof fn law_transaction_delete_is_seen(
    store: Store,
    branch: u32,
    ops: Seq<Op>,
    i: int,
    key: Seq<u8>,
)
    requires
        branch != 0,
        on_branch_keys(branch, ops),
        0 <= i < ops.len(),
        ops[i] == (Op::Delete { key }),
        forall|j: int| 0 <= j < ops.len() && j != i ==> op_key(#[trigger] ops[j]) != key,
        is_root_suffix(key_suffix(branch, key)),
        store.contains_key(key) && store.contains_key(parent_key_of(branch, key)->0)
            ==> store.contains_key(tombstone_key_of(branch, key)->0),
    ensures
        branch_batch(store, branch, ops) is Some,
        view_get(replay(store, branch_batch(store, branch, ops)->0), branch, key) is None,
{
    let before = ops.subrange(0, i);
    let after = ops.subrange(i + 1, ops.len() as int);
    let one = seq![ops[i]];
    assert(is_scoped_key(branch, op_key(ops[i])));
    assert forall|j: int| 0 <= j < before.len() implies is_scoped_key(
        branch,
        op_key(#[trigger] before[j]),
    ) && op_key(before[j]) != key by {
        assert(before[j] == ops[j]);
    }
    assert forall|j: int| 0 <= j < after.len() implies is_scoped_key(
        branch,
        op_key(#[trigger] after[j]),
    ) && op_key(after[j]) != key by {
        assert(after[j] == ops[i + 1 + j]);
    }
    lemma_batch_accepted(store, branch, ops);
    lemma_batch_accepted(store, branch, before);
    lemma_batch_accepted(store, branch, after);
    lemma_split_at(ops, i);
    lemma_batch_concat(store, branch, before, one + after);
    lemma_batch_concat(store, branch, one, after);
    lemma_batch_of_one(store, branch, ops[i]);
    let x = branch_batch(store, branch, before)->0;
    let d = delete_ops(store, branch, key)->0;
    let y = branch_batch(store, branch, after)->0;
    law_replay_merges(store, x, d + y);
    law_replay_merges(replay(store, x), d, y);
    lemma_rows_kept(store, store, branch, before, key);
    lemma_rows_kept(store, replay(replay(store, x), d), branch, after, key);
    lemma_same_delete(store, replay(store, x), branch, key);
    law_deleted_key_is_absent(store, branch, key);
}

/// The three rows that decide what a branch reads under `key` are the same.
pub open spec fn same_entry(a: Store, b: Store, branch: u32, key: Seq<u8>) -> bool {
    &&& raw_get(a, key) == raw_get(b, key)
    &&& raw_get(a, tombstone_key_of(branch, key)->0) == raw_get(
        b,
        tombstone_key_of(branch, key)->0,
    )
    &&& raw_get(a, parent_key_of(branch, key)->0) == raw_get(b, parent_key_of(branch, key)->0)
}

/// Operations on other entries, decided from `store`, keep an entry's rows in
/// `base`.
proof fn lemma_rows_kept(store: Store, base: Store, branch: u32, ops: Seq<Op>, key: Seq<u8>)
    requires
        branch != 0,
        is_scoped_key(branch, key),
        is_root_suffix(key_suffix(branch, key)),
        on_branch_keys(branch, ops),
        forall|i: int| 0 <= i < ops.len() ==> op_key(#[trigger] ops[i]) != key,
        branch_batch(store, branch, ops) is Some,
    ensures
        same_entry(replay(base, branch_batch(store, branch, ops)->0), base, branch, key),
{
    let batch = branch_batch(store, branch, ops)->0;
    let kind = key_kind(key)->0;
    let suffix = key_suffix(branch, key);
    let parent = parent_key_of(branch, key)->0;
    lemma_batch_avoids(store, branch, ops, key);
    lemma_batch_stays_in_branch(store, branch, ops);
    law_replay_keeps_untouched(base, batch, key);
    law_replay_keeps_untouched(base, batch, tombstone_key_of(branch, key)->0);
    assert forall|i: int| 0 <= i < batch.len() implies op_key(#[trigger] batch[i]) != parent by {
        lemma_branch_row_is_no_root_row(branch, batch[i], kind, suffix);
    }
    law_replay_keeps_untouched(base, batch, parent);
}

/// What touches a branch's row touches no root row.
proof fn lemma_branch_row_is_no_root_row(branch: u32, op: Op, kind: KeyPrefix, suffix: Seq<u8>)
    requires
        branch != 0,
        touches_branch_row(branch, op),
        kind_scoped(kind),
        is_root_suffix(suffix),
    ensures
        op_key(op) != full_key(0, kind, suffix),
{
    let key = op_key(op);
    if is_scoped_key(branch, key) {
        law_scoped_key_rebuilds(branch, key);
        lemma_root_row_apart(branch, key_kind(key)->0, key_suffix(branch, key), kind, suffix);
    } else {
        let (k, s) = choose|k: KeyPrefix, s: Seq<u8>|
            kind_scoped(k) && key == #[trigger] tombstone_row(branch, k, s);
        lemma_root_row_apart(branch, k, s, kind, suffix);
    }
}

/// A delete decided from `store` leaves an entry alike in `store` and in any
/// store that has the entry's rows alike.
proof fn lemma_same_delete(store: Store, other: Store, branch: u32, key: Seq<u8>)
    requires
        branch != 0,
        is_scoped_key(branch, key),
        same_entry(other, store, branch, key),
        delete_ops(store, branch, key) is Some,
    ensures
        same_entry(
            replay(other, delete_ops(store, branch, key)->0),
            replay(store, delete_ops(store, branch, key)->0),
            branch,
            key,
        ),
{
    let ops = delete_ops(store, branch, key)->0;
    if ops.len() > 0 {
        assert(ops =~= seq![ops[0]]);
        lemma_replay_one(store, ops[0]);
        lemma_replay_one(other, ops[0]);
    } else {
        assert(ops =~= Seq::empty());
    }
}

/// A whole transaction on a branch's scoped keys is invisible to its siblings.
pub proof fn law_branch_batch_invisible_to_sibling(
    store: Store,
    branch: u32,
    ops: Seq<Op>,
    sibling: u32,
    kind: KeyPrefix,
    suffix: Seq<u8>,
)
    requires
        branch != 0,
        sibling != 0,
        sibling != branch,
        on_branch_keys(branch, ops),
        kind_scoped(kind),
        is_root_suffix(suffix),
    ensures
        branch_batch(store, branch, ops) is Some,
        view_get(
            replay(store, branch_batch(store, branch, ops)->0),
            sibling,
            full_key(sibling, kind, suffix),
        ) == view_get(store, sibling, full_key(sibling, kind, suffix)),
{
    lemma_batch_accepted(store, branch, ops);
    lemma_batch_stays_in_branch(store, branch, ops);
    let batch = branch_batch(store, branch, ops)->0;
    let own = full_key(sibling, kind, suffix);
    let tombstone = tombstone_row(sibling, kind, suffix);
    let parent = full_key(0, kind, suffix);
    law_full_key_parts(sibling, kind, suffix);
    law_strip_adopt(sibling, kind, suffix);
    law_tombstone_names_parent_key(sibling, kind, suffix);
    law_scopes_apart(branch, sibling, kind, suffix);
    assert forall|i: int| 0 <= i < batch.len() implies op_key(#[trigger] batch[i]) != own
        && op_key(batch[i]) != tombstone && op_key(batch[i]) != parent by {
        let key = op_key(batch[i]);
        assert(touches_branch_row(branch, batch[i]));
        lemma_branch_row_is_no_root_row(branch, batch[i], kind, suffix);
        if !is_scoped_key(branch, key) {
            let (k, s) = choose|k: KeyPrefix, s: Seq<u8>|
                kind_scoped(k) && key == #[trigger] tombstone_row(branch, k, s);
            law_tombstone_names_parent_key(branch, k, s);
            if key == tombstone {
                law_tombstone_row_injective(branch, k, s, sibling, kind, suffix);
            }
        }
    }
    law_replay_keeps_untouched(store, batch, own);
    law_replay_keeps_untouched(store, batch, tombstone);
    law_replay_keeps_untouched(store, batch, parent);
}

/// The batch of a transaction is made of what each of its operations becomes, in
/// their order: an empty transaction makes an empty batch, and the batch of two
/// transactions, one after the other, is that of both, refused where either is.
pub proof fn law_batch_goes_operation_by_operation(
    store: Store,
    branch: u32,
    first: Seq<Op>,
    second: Seq<Op>,
)
    ensures
        branch_batch(store, branch, Seq::empty()) == Some(Seq::<Op>::empty()),
        branch_batch(store, branch, first + second) == match (
            branch_batch(store, branch, first),
            branch_batch(store, branch, second),
        ) {
            (Some(a), Some(b)) => Some(a + b),
            _ => None,
        },
{
    lemma_batch_concat(store, branch, first, second);
}

/// The batch of one operation: a put as staged, through any handle; a delete as
/// staged under the root, and under a branch what the delete stages there.
pub proof fn law_batch_of_one_operation(store: Store, branch: u32, key: Seq<u8>, value: Seq<u8>)
    ensures
        branch_batch(store, branch, seq![Op::Put { key, value }]) == Some(
            seq![Op::Put { key, value }],
        ),
        branch_batch(store, 0, seq![Op::Delete { key }]) == Some(seq![Op::Delete { key }]),
        branch != 0 ==> branch_batch(store, branch, seq![Op::Delete { key }]) == delete_ops(
            store,
            branch,
            key,
        ),
{
    lemma_batch_of_one(store, branch, Op::Put { key, value });
    lemma_batch_of_one(store, branch, Op::Delete { key });
    lemma_batch_of_one(store, 0, Op::Delete { key });
}

} // verus!
