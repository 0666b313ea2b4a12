//! A branch's view of a small store: reads, writes, deletes and scans.

use bytes::Bytes;
use std::collections::BTreeMap;
use zerofs::branch_apply::{ApplyStep, BranchApply};
use zerofs::branch_merge::{
    collect_tombstone_suffix, is_ascending, merge_rows, BranchMerge, MalformedTombstone,
    MergeError, MergeStep,
};
use zerofs::branch_scan::{
    branch_parent_range, branch_tombstone_bounds, plan_scan, plan_scan_prefix,
    plan_scan_prefix_from, slice_bound, KeyBound, PrefixScanPlan, ScanPlan, SeekOutsidePrefix,
    SliceBound, UnmappableBound,
};
use zerofs::branch_view::{BranchDelete, NotABranchKey, PointRead};
use zerofs::key_codec::{BranchId, KeyCodec, KeyPrefix};
use zerofs::transaction::{Transaction, TxOp};

type Txn = Transaction<(), u64, u64>;
type Store = BTreeMap<Vec<u8>, Bytes>;

fn branch_id() -> BranchId {
    BranchId(7)
}

fn rc() -> KeyCodec {
    KeyCodec::new()
}

fn bc() -> KeyCodec {
    KeyCodec::for_branch(branch_id())
}

fn put(store: &mut Store, key: &Bytes, value: &[u8]) {
    store.insert(key.to_vec(), Bytes::copy_from_slice(value));
}

fn has(store: &Store, key: &Bytes) -> bool {
    store.contains_key(key.as_ref())
}

fn get(store: &Store, branch: BranchId, key: &Bytes) -> Option<Bytes> {
    let mut read = PointRead::begin(branch, key.clone());
    while let Some(wanted) = read.wanted() {
        read = read.answer(store.get(wanted.as_ref()).cloned());
    }
    read.value()
}

fn apply(store: &mut Store, branch: BranchId, txn: Txn) -> Result<(), NotABranchKey> {
    assert_eq!(txn.undrained(), None);
    let mut apply = BranchApply::begin(branch, txn.into_ops());
    let ops = loop {
        match apply.step() {
            ApplyStep::Fetch(key) => apply.answer(store.contains_key(key.as_ref())),
            ApplyStep::Done(ops) => break ops,
            ApplyStep::Refused(refused) => return Err(refused),
        }
    };
    for op in ops {
        match op {
            TxOp::Put(key, value) => {
                store.insert(key.to_vec(), value);
            }
            TxOp::Delete(key) => {
                store.remove(key.as_ref());
            }
        }
    }
    Ok(())
}

fn delete(store: &mut Store, branch: BranchId, key: &Bytes) {
    let mut txn = Txn::new();
    txn.delete_bytes(key);
    apply(store, branch, txn).unwrap();
}

fn value(bytes: &[u8]) -> Option<Bytes> {
    Some(Bytes::copy_from_slice(bytes))
}

fn above(key: &[u8], start: &KeyBound<Bytes>) -> bool {
    match start {
        KeyBound::Included(b) => key >= b.as_ref(),
        KeyBound::Excluded(b) => key > b.as_ref(),
        KeyBound::Unbounded => true,
    }
}

fn below(key: &[u8], end: &KeyBound<Bytes>) -> bool {
    match end {
        KeyBound::Included(b) => key <= b.as_ref(),
        KeyBound::Excluded(b) => key < b.as_ref(),
        KeyBound::Unbounded => true,
    }
}

fn raw_scan(store: &Store, range: &(KeyBound<Bytes>, KeyBound<Bytes>)) -> Vec<(Bytes, Bytes)> {
    store
        .iter()
        .filter(|(k, _)| above(k, &range.0) && below(k, &range.1))
        .map(|(k, v)| (Bytes::from(k.clone()), v.clone()))
        .collect()
}

fn raw_prefix(store: &Store, prefix: &Bytes, from: &Bytes) -> Vec<(Bytes, Bytes)> {
    let mut first = prefix.to_vec();
    first.extend_from_slice(from);
    store
        .iter()
        .filter(|(k, _)| k.starts_with(prefix) && **k >= first)
        .map(|(k, v)| (Bytes::from(k.clone()), v.clone()))
        .collect()
}

fn suffixes(codec: &KeyCodec, rows: &[(Bytes, Bytes)]) -> Vec<Bytes> {
    let mut out = Vec::new();
    for (key, _) in rows {
        collect_tombstone_suffix(codec, key, &mut out).unwrap();
    }
    assert!(is_ascending(&out));
    out
}

fn merge(
    codec: KeyCodec,
    tombstones: Vec<Bytes>,
    parent: Vec<(Bytes, Bytes)>,
    branch: Vec<(Bytes, Bytes)>,
) -> Vec<(Bytes, Bytes)> {
    let (rows, error) = merge_rows(codec, tombstones, &parent, &branch);
    assert_eq!(error, None);
    rows
}

fn scan_bounds(
    store: &Store,
    branch: BranchId,
    start: KeyBound<&[u8]>,
    end: KeyBound<&[u8]>,
) -> Vec<(Bytes, Bytes)> {
    let codec = KeyCodec::for_branch(branch);
    match plan_scan(&codec, start, end).unwrap() {
        ScanPlan::Raw => {
            let copy = |b: KeyBound<&[u8]>| match b {
                KeyBound::Included(k) => KeyBound::Included(Bytes::copy_from_slice(k)),
                KeyBound::Excluded(k) => KeyBound::Excluded(Bytes::copy_from_slice(k)),
                KeyBound::Unbounded => KeyBound::Unbounded,
            };
            raw_scan(store, &(copy(start), copy(end)))
        }
        ScanPlan::Merged {
            parent,
            branch,
            tombstones,
        } => merge(
            codec,
            suffixes(&codec, &raw_scan(store, &tombstones)),
            raw_scan(store, &parent),
            raw_scan(store, &branch),
        ),
    }
}

fn scan(store: &Store, branch: BranchId, range: (Bytes, Bytes)) -> Vec<(Bytes, Bytes)> {
    scan_bounds(
        store,
        branch,
        KeyBound::Included(range.0.as_ref()),
        KeyBound::Excluded(range.1.as_ref()),
    )
}

fn scan_prefix(
    store: &Store,
    branch: BranchId,
    prefix: Vec<u8>,
    seek_to: Option<Bytes>,
) -> Vec<(Bytes, Bytes)> {
    let codec = KeyCodec::for_branch(branch);
    match plan_scan_prefix_from(&codec, Bytes::from(prefix), seek_to).ok().unwrap() {
        PrefixScanPlan::Raw { prefix, from } => raw_prefix(store, &prefix, &from),
        PrefixScanPlan::Merged {
            parent_prefix,
            parent_from,
            branch_prefix,
            branch_from,
            tombstone_prefix,
        } => merge(
            codec,
            suffixes(&codec, &raw_prefix(store, &tombstone_prefix, &Bytes::new())),
            raw_prefix(store, &parent_prefix, &parent_from),
            raw_prefix(store, &branch_prefix, &branch_from),
        ),
    }
}

/// `(suffix, value)` pairs; every emitted key must be one of the branch's.
fn merged_suffixes(rows: &[(Bytes, Bytes)]) -> Vec<(Vec<u8>, Bytes)> {
    rows.iter()
        .map(|(k, v)| (bc().scoped_suffix(k).unwrap().to_vec(), v.clone()))
        .collect()
}

fn dir_suffix(dir: u64, name: &[u8]) -> Vec<u8> {
    let mut s = dir.to_be_bytes().to_vec();
    s.extend_from_slice(name);
    s
}

#[test]
fn point_reads_resolve_branch_then_tombstone_then_parent() {
    let mut store = Store::new();
    let root_key: Bytes = rc().inode_key(5).into();
    let branch_key: Bytes = bc().inode_key(5).into();

    put(&mut store, &root_key, b"parent");
    assert_eq!(get(&store, branch_id(), &branch_key), value(b"parent"));

    put(&mut store, &branch_key, b"branch");
    assert_eq!(get(&store, branch_id(), &branch_key), value(b"branch"));
    assert_eq!(get(&store, BranchId(0), &root_key), value(b"parent"));
}

#[test]
fn branch_writes_are_invisible_to_the_parent_and_to_siblings() {
    let mut store = Store::new();
    let branch_key: Bytes = bc().inode_key(6).into();
    put(&mut store, &branch_key, b"branch-only");
    assert_eq!(get(&store, branch_id(), &branch_key), value(b"branch-only"));
    assert_eq!(get(&store, BranchId(0), &rc().inode_key(6).into()), None);
    let sibling = KeyCodec::for_branch(BranchId(8));
    assert_eq!(get(&store, BranchId(8), &sibling.inode_key(6).into()), None);
}

#[test]
fn branch_delete_of_parent_key_shadows_with_a_tombstone() {
    let mut store = Store::new();
    let root_key: Bytes = rc().inode_key(7).into();
    let branch_key: Bytes = bc().inode_key(7).into();
    let tombstone = bc().branch_tombstone_key(&branch_key).unwrap();

    put(&mut store, &root_key, b"parent");
    delete(&mut store, branch_id(), &branch_key);
    assert_eq!(get(&store, branch_id(), &branch_key), None);
    assert_eq!(get(&store, BranchId(0), &root_key), value(b"parent"));
    assert_eq!(store.get(tombstone.as_ref()), value(&[1]).as_ref());

    // The tombstone keeps shadowing whatever the parent does with its row.
    delete(&mut store, BranchId(0), &root_key);
    assert_eq!(get(&store, BranchId(0), &root_key), None);
    assert_eq!(get(&store, branch_id(), &branch_key), None);
    put(&mut store, &root_key, b"again");
    assert_eq!(get(&store, branch_id(), &branch_key), None);
}

#[test]
fn branch_delete_of_branch_owned_key_is_a_real_delete() {
    let mut store = Store::new();
    let branch_key: Bytes = bc().inode_key(8).into();
    put(&mut store, &branch_key, b"branch");
    delete(&mut store, branch_id(), &branch_key);
    assert!(store.is_empty());
}

#[test]
fn branch_delete_of_a_shadowing_row_shows_the_parents_again() {
    let mut store = Store::new();
    let branch_key: Bytes = bc().inode_key(8).into();
    put(&mut store, &rc().inode_key(8).into(), b"parent");
    put(&mut store, &branch_key, b"branch");
    delete(&mut store, branch_id(), &branch_key);
    assert_eq!(get(&store, branch_id(), &branch_key), value(b"parent"));
}

#[test]
fn branch_delete_of_absent_key_is_a_no_op() {
    let mut store = Store::new();
    let branch_key: Bytes = bc().inode_key(9).into();
    let mut txn = Txn::new();
    txn.delete_bytes(&branch_key);
    txn.put_bytes(&bc().segcount_key(1, 1), Bytes::from_static(b"s"));
    apply(&mut store, branch_id(), txn).unwrap();
    assert_eq!(store.len(), 1);
    assert!(has(&store, &bc().segcount_key(1, 1)));
}

#[test]
fn multi_key_branch_transaction_applies_in_one_batch() {
    let mut store = Store::new();
    let k1_root: Bytes = rc().inode_key(10).into();
    let k2_root: Bytes = rc().inode_key(11).into();
    let k1: Bytes = bc().inode_key(10).into();
    let k2: Bytes = bc().inode_key(11).into();
    let k3: Bytes = bc().inode_key(12).into();
    put(&mut store, &k1_root, b"p1");
    put(&mut store, &k2_root, b"p2");

    let mut txn = Txn::new();
    txn.put_bytes(&k1, Bytes::from_static(b"b1"));
    txn.put_bytes(&k3, Bytes::from_static(b"b3"));
    txn.delete_bytes(&k2);
    apply(&mut store, branch_id(), txn).unwrap();

    assert_eq!(get(&store, branch_id(), &k1), value(b"b1"));
    assert_eq!(get(&store, branch_id(), &k3), value(b"b3"));
    assert_eq!(get(&store, branch_id(), &k2), None);
    assert_eq!(get(&store, BranchId(0), &k1_root), value(b"p1"));
    assert_eq!(get(&store, BranchId(0), &k2_root), value(b"p2"));
    assert_eq!(get(&store, BranchId(0), &rc().inode_key(12).into()), None);
}

#[test]
fn reput_after_tombstone_then_redelete_stays_consistent() {
    let mut store = Store::new();
    let root_key: Bytes = rc().inode_key(13).into();
    let branch_key: Bytes = bc().inode_key(13).into();
    put(&mut store, &root_key, b"parent");

    delete(&mut store, branch_id(), &branch_key);
    put(&mut store, &branch_key, b"branch");
    assert_eq!(get(&store, branch_id(), &branch_key), value(b"branch"));

    delete(&mut store, branch_id(), &branch_key);
    assert!(!has(&store, &branch_key));
    assert_eq!(get(&store, branch_id(), &branch_key), None);
    assert_eq!(get(&store, BranchId(0), &root_key), value(b"parent"));
}

#[test]
fn root_branch_transactions_delete_for_real() {
    let mut store = Store::new();
    let key: Bytes = rc().inode_key(14).into();
    put(&mut store, &key, b"v");
    delete(&mut store, BranchId(0), &key);
    assert!(store.is_empty());
}

#[test]
fn unscoped_keys_are_shared_globally_across_views() {
    let mut store = Store::new();
    let stats_key = rc().stats_shard_key(0);
    put(&mut store, &stats_key, b"stats");
    assert_eq!(get(&store, BranchId(0), &stats_key), value(b"stats"));
    assert_eq!(get(&store, branch_id(), &stats_key), value(b"stats"));
    delete(&mut store, branch_id(), &stats_key);
    assert!(store.is_empty());
}

#[test]
fn a_delete_of_a_foreign_scoped_key_is_refused() {
    let mut store = Store::new();
    let sibling = KeyCodec::for_branch(BranchId(8));
    let mut txn = Txn::new();
    txn.delete_bytes(&sibling.inode_key(1).into());
    assert_eq!(apply(&mut store, branch_id(), txn), Err(NotABranchKey));

    let mut one = BranchDelete::begin(branch_id(), rc().inode_key(1).into());
    assert!(one.wanted().is_some());
    one = one.answer(false);
    assert!(one.wanted().is_none());
    assert!(one.staged().is_err());
}

#[test]
fn merged_scan_shadows_suppresses_and_orders_by_suffix() {
    let mut store = Store::new();
    for name in [b"a".as_slice(), b"c", b"e"] {
        put(&mut store, &rc().dir_entry_key(1, name), &[b'p', name[0]]);
    }
    put(&mut store, &bc().dir_entry_key(1, b"b"), b"bb");
    put(&mut store, &bc().dir_entry_key(1, b"c"), b"bc");
    put(&mut store, &rc().dir_entry_key(1, b"d"), b"pd");
    delete(&mut store, branch_id(), &bc().dir_entry_key(1, b"a"));
    delete(&mut store, branch_id(), &bc().dir_entry_key(1, b"d"));
    put(&mut store, &bc().dir_entry_key(1, b"d"), b"bd");
    // A sibling's row lies in the same kind and must not show.
    put(&mut store, &KeyCodec::for_branch(BranchId(8)).dir_entry_key(1, b"x"), b"s");

    let rows = scan(&store, branch_id(), bc().prefix_range(KeyPrefix::DirEntry));
    let expected = vec![
        (dir_suffix(1, b"b"), Bytes::from_static(b"bb")),
        (dir_suffix(1, b"c"), Bytes::from_static(b"bc")),
        (dir_suffix(1, b"d"), Bytes::from_static(b"bd")),
        (dir_suffix(1, b"e"), Bytes::from_static(b"pe")),
    ];
    assert_eq!(merged_suffixes(&rows), expected);
    // The scan agrees with point reads.
    for name in [b"a".as_slice(), b"b", b"c", b"d", b"e", b"x"] {
        let key = bc().dir_entry_key(1, name);
        let scanned = rows.iter().find(|(k, _)| *k == key).map(|(_, v)| v.clone());
        assert_eq!(scanned, get(&store, branch_id(), &key));
    }
    // The whole kind, as the root brackets it, holds the same view.
    let whole = scan(&store, branch_id(), rc().prefix_range(KeyPrefix::DirEntry));
    assert_eq!(merged_suffixes(&whole), expected);

    let root_rows = scan_prefix(&store, BranchId(0), rc().dir_entry_prefix(1), None);
    assert_eq!(root_rows.len(), 4);
}

#[test]
fn merged_scan_handles_empty_scopes() {
    let mut store = Store::new();
    let range = || bc().prefix_range(KeyPrefix::DirEntry);
    assert!(scan(&store, branch_id(), range()).is_empty());

    put(&mut store, &rc().dir_entry_key(2, b"x"), b"px");
    assert_eq!(
        merged_suffixes(&scan(&store, branch_id(), range())),
        vec![(dir_suffix(2, b"x"), Bytes::from_static(b"px"))]
    );

    put(&mut store, &bc().dir_entry_key(3, b"y"), b"by");
    assert_eq!(
        merged_suffixes(&scan_prefix(&store, branch_id(), bc().dir_entry_prefix(3), None)),
        vec![(dir_suffix(3, b"y"), Bytes::from_static(b"by"))]
    );
}

#[test]
fn merged_scan_rename_hides_old_name_and_shows_new() {
    let mut store = Store::new();
    put(&mut store, &rc().dir_entry_key(4, b"old"), b"entry");
    delete(&mut store, branch_id(), &bc().dir_entry_key(4, b"old"));
    put(&mut store, &bc().dir_entry_key(4, b"new"), b"entry");
    assert_eq!(
        merged_suffixes(&scan_prefix(&store, branch_id(), bc().dir_entry_prefix(4), None)),
        vec![(dir_suffix(4, b"new"), Bytes::from_static(b"entry"))]
    );
    let root_rows = scan_prefix(&store, BranchId(0), rc().dir_entry_prefix(4), None);
    assert_eq!(root_rows.len(), 1);
    assert_eq!(root_rows[0].0, rc().dir_entry_key(4, b"old"));
}

#[test]
fn merged_scan_sees_parent_rows_written_after_the_branch_exists() {
    let mut store = Store::new();
    put(&mut store, &bc().dir_entry_key(5, b"branch"), b"b");
    put(&mut store, &rc().dir_entry_key(5, b"parent-new"), b"p");
    assert_eq!(
        merged_suffixes(&scan_prefix(&store, branch_id(), bc().dir_entry_prefix(5), None)),
        vec![
            (dir_suffix(5, b"branch"), Bytes::from_static(b"b")),
            (dir_suffix(5, b"parent-new"), Bytes::from_static(b"p")),
        ]
    );
}

#[test]
fn merged_scan_prefix_isolates_nested_directory_prefixes() {
    let mut store = Store::new();
    put(&mut store, &rc().dir_entry_key(6, b"pa"), b"p");
    put(&mut store, &rc().dir_entry_key(7, b"px"), b"p");
    put(&mut store, &bc().dir_entry_key(6, b"bb"), b"b");
    put(&mut store, &bc().dir_entry_key(7, b"by"), b"b");
    put(&mut store, &rc().dir_entry_key(6, b"gone"), b"p");
    put(&mut store, &rc().dir_entry_key(7, b"gone"), b"p");
    delete(&mut store, branch_id(), &bc().dir_entry_key(6, b"gone"));
    assert_eq!(
        merged_suffixes(&scan_prefix(&store, branch_id(), bc().dir_entry_prefix(6), None)),
        vec![
            (dir_suffix(6, b"bb"), Bytes::from_static(b"b")),
            (dir_suffix(6, b"pa"), Bytes::from_static(b"p")),
        ]
    );
    assert_eq!(
        merged_suffixes(&scan_prefix(&store, branch_id(), bc().dir_entry_prefix(7), None)),
        vec![
            (dir_suffix(7, b"by"), Bytes::from_static(b"b")),
            (dir_suffix(7, b"gone"), Bytes::from_static(b"p")),
            (dir_suffix(7, b"px"), Bytes::from_static(b"p")),
        ]
    );
}

#[test]
fn merged_scan_prefix_resumes_from_seek_to_in_both_scopes() {
    let mut store = Store::new();
    for name in [b"a".as_slice(), b"m", b"z"] {
        put(&mut store, &rc().dir_entry_key(8, name), b"p");
    }
    for name in [b"b".as_slice(), b"n"] {
        put(&mut store, &bc().dir_entry_key(8, name), b"b");
    }
    let seek_to = bc().dir_entry_key(8, b"m");
    assert_eq!(
        merged_suffixes(&scan_prefix(
            &store,
            branch_id(),
            bc().dir_entry_prefix(8),
            Some(seek_to)
        )),
        vec![
            (dir_suffix(8, b"m"), Bytes::from_static(b"p")),
            (dir_suffix(8, b"n"), Bytes::from_static(b"b")),
            (dir_suffix(8, b"z"), Bytes::from_static(b"p")),
        ]
    );
    // A root handle starts at the same point of its own rows.
    let rows = scan_prefix(
        &store,
        BranchId(0),
        rc().dir_entry_prefix(8),
        Some(rc().dir_entry_key(8, b"m")),
    );
    assert_eq!(rows.len(), 2);
}

#[test]
fn merged_scan_covers_extent_style_subranges() {
    let mut store = Store::new();
    for idx in 1..=5u64 {
        put(&mut store, &rc().extent_key(9, idx).into(), &[b'p', idx as u8]);
    }
    put(&mut store, &bc().extent_key(9, 3).into(), b"b3");
    put(&mut store, &bc().extent_key(9, 7).into(), b"b7");
    delete(&mut store, branch_id(), &bc().extent_key(9, 4).into());

    let range = (bc().extent_key(9, 2).into(), bc().extent_key(9, 6).into());
    let parsed: Vec<(u64, Bytes)> = scan(&store, branch_id(), range)
        .iter()
        .map(|(k, v)| (bc().parse_extent_key(k).unwrap(), v.clone()))
        .collect();
    assert_eq!(
        parsed,
        vec![
            (2, Bytes::from_static(b"p\x02")),
            (3, Bytes::from_static(b"b3")),
            (5, Bytes::from_static(b"p\x05")),
        ]
    );
    assert_eq!(
        scan(&store, branch_id(), bc().prefix_range(KeyPrefix::Extent)).len(),
        5
    );
    // Bounds of the other flavor: after 2, up to and with 5.
    let from: Bytes = bc().extent_key(9, 2).into();
    let to: Bytes = bc().extent_key(9, 5).into();
    let rows = scan_bounds(
        &store,
        branch_id(),
        KeyBound::Excluded(from.as_ref()),
        KeyBound::Included(to.as_ref()),
    );
    assert_eq!(rows.len(), 2);
}

#[test]
fn unscoped_kind_scans_are_unmerged_on_branch_handles() {
    let mut store = Store::new();
    put(&mut store, &bc().stats_shard_key(0), b"stats");
    assert_eq!(
        scan(&store, branch_id(), bc().prefix_range(KeyPrefix::Stats)),
        vec![(rc().stats_shard_key(0), Bytes::from_static(b"stats"))]
    );

    put(&mut store, &rc().dir_entry_key(10, b"x"), b"p");
    delete(&mut store, branch_id(), &bc().dir_entry_key(10, b"x"));
    let rows = scan(&store, branch_id(), bc().prefix_range(KeyPrefix::BranchTombstone));
    assert_eq!(rows.len(), 1);
    assert_eq!(
        bc().parse_branch_tombstone_key(&rows[0].0).unwrap().0,
        KeyPrefix::DirEntry
    );
}

#[test]
fn ranges_across_kinds_are_scanned_as_stored() {
    let codec = bc();
    let (start, end) = codec.prefix_range(KeyPrefix::Inode);
    let (_, later) = codec.prefix_range(KeyPrefix::DirEntry);
    for (from, to) in [
        (KeyBound::Unbounded, KeyBound::Excluded(end.as_ref())),
        (KeyBound::Included(start.as_ref()), KeyBound::Unbounded),
        (
            KeyBound::Included(start.as_ref()),
            KeyBound::Excluded(later.as_ref()),
        ),
        (
            KeyBound::Included(b"nonsense".as_slice()),
            KeyBound::Excluded(end.as_ref()),
        ),
    ] {
        assert!(branch_parent_range(&codec, from, to).is_none());
    }
    assert!(branch_parent_range(
        &rc(),
        KeyBound::Included(start.as_ref()),
        KeyBound::Excluded(end.as_ref())
    )
    .is_none());
}

#[test]
fn bounds_outside_the_slice_map_to_the_ends_of_the_kind() {
    let codec = KeyCodec::for_branch(BranchId(0x0000_0100));
    // One and two bytes of a branch id, on either side of this one.
    for (key, before) in [
        (b"meta\x01".as_slice(), true),
        (b"meta\x01\x00\x00", true),
        (b"meta\x01\x00\x00\x01", true),
        (b"meta\x01\x00\x01", false),
        (b"meta\x01\x00\x00\x00\xff\x01", true),
        (b"meta\x01\x00\x00\x01\x01", false),
    ] {
        match slice_bound(&codec, KeyPrefix::Inode, key) {
            Some(SliceBound::Before) => assert!(before),
            Some(SliceBound::After) => assert!(!before),
            _ => panic!("not in the slice"),
        }
    }
    match slice_bound(&codec, KeyPrefix::Inode, b"meta\x01\x00\x00\x01\x00\x05") {
        Some(SliceBound::Within(parent)) => assert_eq!(parent.as_ref(), b"meta\x01\x05"),
        _ => panic!("in the slice"),
    }
    assert!(slice_bound(&codec, KeyPrefix::Inode, b"meta\x02").is_none());
}

#[test]
fn tombstone_bounds_follow_the_parents() {
    let codec = bc();
    let key = rc().dir_entry_key(1, b"a");
    let end = Bytes::from_static(b"meta\x03");
    let (ts, te) = branch_tombstone_bounds(
        &codec,
        &KeyBound::Excluded(key.clone()),
        &KeyBound::Excluded(end),
    )
    .unwrap();
    match ts {
        KeyBound::Excluded(b) => assert_eq!(
            b,
            codec.branch_tombstone_key(&codec.dir_entry_key(1, b"a")).unwrap()
        ),
        _ => panic!("flavor kept"),
    }
    match te {
        KeyBound::Excluded(b) => assert_eq!(b.as_ref(), b"meta\x0d\x00\x00\x00\x07\x03"),
        _ => panic!("flavor kept"),
    }
    let bad = KeyBound::Included(Bytes::from_static(b"other"));
    let good = KeyBound::Included(key);
    assert!(matches!(
        branch_tombstone_bounds(&codec, &bad, &good),
        Err(UnmappableBound::Start)
    ));
    assert!(matches!(
        branch_tombstone_bounds(&codec, &good, &bad),
        Err(UnmappableBound::End)
    ));
    assert!(matches!(
        branch_tombstone_bounds(&codec, &KeyBound::Unbounded, &KeyBound::Unbounded),
        Ok((KeyBound::Unbounded, KeyBound::Unbounded))
    ));
}

#[test]
fn malformed_tombstone_rows_are_refused() {
    let mut out = Vec::new();
    assert_eq!(
        collect_tombstone_suffix(&bc(), b"meta\x0d\x00\x00\x00\x08\x01s", &mut out),
        Err(MalformedTombstone)
    );
    assert!(out.is_empty());
    assert_eq!(
        collect_tombstone_suffix(&bc(), b"meta\x0d\x00\x00\x00\x07\x01s", &mut out),
        Ok(())
    );
    assert_eq!(out, vec![Bytes::from_static(b"s")]);
    assert!(is_ascending(&vec![Bytes::from_static(b"a"), Bytes::from_static(b"a")]));
    assert!(!is_ascending(&vec![Bytes::from_static(b"b"), Bytes::from_static(b"a")]));
}

#[test]
fn rows_outside_the_kind_fail_the_merge_once() {
    let row = |key: Bytes| (key, Bytes::from_static(b"v"));
    let (rows, error) = merge_rows(bc(), vec![], &vec![row(rc().stats_shard_key(1))], &vec![]);
    assert!(rows.is_empty());
    assert_eq!(error, Some(MergeError::ParentRow));

    let (rows, error) = merge_rows(
        bc(),
        vec![],
        &vec![row(rc().orphan_key(1)), row(rc().orphan_key(3))],
        &vec![row(bc().orphan_key(2)), row(rc().stats_shard_key(1))],
    );
    assert_eq!(rows.len(), 2);
    assert_eq!(error, Some(MergeError::BranchRow));

    // After a failure the merge ends.
    let mut merge = BranchMerge::new(vec![], bc());
    assert!(matches!(merge.step(), MergeStep::NeedParent));
    merge.feed_parent(Some(row(rc().stats_shard_key(1))));
    assert!(matches!(merge.step(), MergeStep::Fail(MergeError::ParentRow)));
    for _ in 0..3 {
        assert!(matches!(merge.step(), MergeStep::End));
    }

    // So it does after a scan failed.
    let mut merge = BranchMerge::new(vec![], bc());
    assert!(matches!(merge.step(), MergeStep::NeedParent));
    merge.feed_parent(Some(row(rc().orphan_key(4))));
    assert!(matches!(merge.step(), MergeStep::NeedBranch));
    merge.source_failed();
    for _ in 0..3 {
        assert!(matches!(merge.step(), MergeStep::End));
    }
}

#[test]
fn the_merge_asks_for_one_row_per_side() {
    let row = |key: Bytes| (key, Bytes::from_static(b"v"));
    let mut merge = BranchMerge::new(vec![], bc());
    assert!(matches!(merge.step(), MergeStep::NeedParent));
    // A branch's row met by the parent's scan is dropped.
    merge.feed_parent(Some(row(KeyCodec::for_branch(BranchId(8)).orphan_key(1))));
    assert!(matches!(merge.step(), MergeStep::NeedParent));
    merge.feed_parent(Some(row(rc().orphan_key(4))));
    assert!(matches!(merge.step(), MergeStep::NeedBranch));
    merge.feed_branch(Some(row(bc().orphan_key(3))));
    match merge.step() {
        MergeStep::Emit(key, _) => assert_eq!(key, bc().orphan_key(3)),
        _ => panic!("the branch's row comes first"),
    }
    assert!(matches!(merge.step(), MergeStep::NeedBranch));
    merge.feed_branch(None);
    match merge.step() {
        MergeStep::Emit(key, _) => assert_eq!(key, bc().orphan_key(4)),
        _ => panic!("then the parent's, re-keyed"),
    }
    assert!(matches!(merge.step(), MergeStep::NeedParent));
    merge.feed_parent(None);
    for _ in 0..2 {
        assert!(matches!(merge.step(), MergeStep::End));
    }
}

#[test]
fn prefix_scans_refuse_a_start_outside_the_prefix() {
    let prefix = Bytes::from(bc().prefix_range(KeyPrefix::Orphan).0);
    let refused = |seek: Bytes| {
        plan_scan_prefix_from(&bc(), prefix.clone(), Some(seek)).err() == Some(SeekOutsidePrefix)
    };
    assert!(refused(rc().orphan_key(4)));
    assert!(refused(KeyCodec::for_branch(BranchId(8)).orphan_key(4)));
    assert!(refused(Bytes::new()));
    assert!(!refused(bc().orphan_key(4)));
    // Scans of a root handle are held to the prefix too.
    let plan = plan_scan_prefix_from(&rc(), prefix.clone(), Some(Bytes::from_static(b"x")));
    assert!(plan.is_err());
    match plan_scan_prefix(&bc(), prefix.clone(), Some(bc().orphan_key(4))) {
        PrefixScanPlan::Merged { parent_prefix, parent_from, branch_prefix, branch_from, .. } => {
            assert_eq!(parent_prefix, rc().prefix_range(KeyPrefix::Orphan).0);
            assert_eq!(branch_prefix, prefix);
            assert_eq!(parent_from.as_ref(), 4u64.to_be_bytes());
            assert_eq!(branch_from.as_ref(), 4u64.to_be_bytes());
        }
        PrefixScanPlan::Raw { .. } => panic!("a branch's own prefix is merged"),
    }
}
