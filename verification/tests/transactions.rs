//! Staged writes, the serving checks, and what is warmed.

use bytes::Bytes;
use zerofs::errors::FsError;
use zerofs::serving::{
    check_closing, check_flush, check_internal_work, check_put, new_transaction,
    InternalAuthority, ServingState, WriteAdmission,
};
use zerofs::transaction::{
    DedupEntry, SegmentFootprintDelta, SideChannel, StatsDelta, Transaction, TxOp,
};
use zerofs::warm::{warm_targets, WarmTarget, WarmTracker};

type Txn = Transaction<String, u64, u64>;

#[test]
fn operations_are_kept_in_order() {
    let mut txn = Txn::default();
    assert!(txn.is_empty());
    txn.put_bytes(&Bytes::from_static(b"k"), Bytes::from_static(b"v"));
    txn.delete_bytes(&Bytes::from_static(b"k"));
    assert_eq!(txn.op_count(), 2);
    assert!(!txn.is_empty());
    let ops = txn.into_ops();
    match &ops[0] {
        TxOp::Put(k, v) => assert_eq!((k.as_ref(), v.as_ref()), (b"k".as_slice(), b"v".as_slice())),
        TxOp::Delete(_) => panic!("put first"),
    }
    assert!(matches!(&ops[1], TxOp::Delete(k) if k.as_ref() == b"k"));
}

#[test]
fn deltas_that_change_nothing_are_dropped() {
    let mut txn = Txn::new();
    txn.add_stats_delta(7, 0, 0);
    txn.add_seg_delta(&Bytes::from_static(b"s"), 0, 0);
    assert_eq!(txn.undrained(), None);
    txn.add_stats_delta(7, 0, -1);
    txn.add_seg_delta(&Bytes::from_static(b"s"), -5, 0);
    assert!(txn.undrained().is_some());
    assert_eq!(
        txn.take_stats_deltas(),
        vec![StatsDelta { inode_id: 7, bytes: 0, inodes: -1 }]
    );
    assert_eq!(txn.take_seg_deltas(), vec![(Bytes::from_static(b"s"), (-5, 0))]);
    assert_eq!(txn.undrained(), None);
}

#[test]
fn segcount_deletes_debit_the_footprint() {
    let mut txn = Txn::new();
    txn.delete_segcount(&Bytes::from_static(b"s1"), 3, 10);
    txn.delete_segcount(&Bytes::from_static(b"s2"), 1, 2);
    assert_eq!(txn.op_count(), 2);
    assert_eq!(
        txn.take_segcount_delete_delta(),
        SegmentFootprintDelta::new(-2, -12, -4)
    );
    assert_eq!(txn.take_segcount_delete_delta(), SegmentFootprintDelta::default());

    // Counts over the signed range are held at its end.
    txn.delete_segcount(&Bytes::from_static(b"s3"), u64::MAX, 1 << 63);
    assert_eq!(
        txn.take_segcount_delete_delta(),
        SegmentFootprintDelta::new(-1, -i64::MAX, -i64::MAX)
    );
    let mut sum = SegmentFootprintDelta::new(1, i64::MAX, i64::MIN);
    sum.merge(SegmentFootprintDelta::new(1, 1, -1));
    assert_eq!(sum, SegmentFootprintDelta::new(2, i64::MAX, i64::MIN));
}

#[test]
fn side_channels_are_taken_once() {
    let mut txn = Txn::new();
    txn.invalidate_cached_inode(4);
    txn.invalidate_cached_directory_entry(1, Bytes::from_static(b"n"));
    assert!(!txn.has_extent_ref_guard());
    txn.hold_extent_ref_guard("guard".to_string());
    assert!(txn.has_extent_ref_guard());
    txn.set_dedup_result(true, 11, 22);
    assert!(txn.undrained().is_some());
    assert_eq!(txn.take_inode_cache_invalidations(), vec![4]);
    assert_eq!(
        txn.take_directory_entry_cache_invalidations(),
        vec![(1, Bytes::from_static(b"n"))]
    );
    assert_eq!(txn.take_extent_ref_guard(), Some("guard".to_string()));
    assert_eq!(txn.take_dedup_entry(), Some(DedupEntry { op_id: 11, result: 22 }));
    assert_eq!(txn.undrained(), None);
    assert!(txn.take_inode_cache_invalidations().is_empty());
    // An operation without an id publishes nothing.
    txn.set_dedup_result(true, 1, 2);
    txn.set_dedup_result(false, 0, 3);
    assert_eq!(txn.take_dedup_entry(), None);
}

#[test]
fn the_first_undrained_channel_is_named() {
    let mut txn = Txn::new();
    txn.set_dedup_result(true, 1, 1);
    assert_eq!(txn.undrained(), Some(SideChannel::DedupEntry));
    txn.hold_extent_ref_guard("g".to_string());
    assert_eq!(txn.undrained(), Some(SideChannel::ExtentRefGuard));
    txn.delete_segcount(&Bytes::from_static(b"s"), 1, 1);
    assert_eq!(txn.undrained(), Some(SideChannel::FootprintDelta));
    txn.add_seg_delta(&Bytes::from_static(b"s"), 1, 1);
    assert_eq!(txn.undrained(), Some(SideChannel::SegDeltas));
    txn.add_stats_delta(1, 1, 1);
    assert_eq!(txn.undrained(), Some(SideChannel::StatsDeltas));
    txn.invalidate_cached_directory_entry(1, Bytes::new());
    assert_eq!(txn.undrained(), Some(SideChannel::EntryInvalidations));
    txn.invalidate_cached_inode(1);
    assert_eq!(txn.undrained(), Some(SideChannel::InodeInvalidations));
}

fn state(closing: bool, lease: Option<bool>, closed: Option<bool>) -> ServingState {
    ServingState { closing, lease_valid: lease, database_closed: closed }
}

#[test]
fn any_sign_of_lost_authority_deposes() {
    for (s, deposed) in [
        (state(false, None, None), false),
        (state(false, Some(true), Some(false)), false),
        (state(true, Some(true), Some(false)), true),
        (state(false, Some(false), Some(false)), true),
        (state(false, None, Some(true)), true),
    ] {
        assert_eq!(s.is_deposed(), deposed);
        assert_eq!(s.permits_successful_response(), !deposed);
        assert_eq!(
            s.check_serving_authority(),
            if deposed { Err(FsError::LeaderLeaseExpired) } else { Ok(()) }
        );
    }
}

#[test]
fn writes_are_admitted_under_the_barrier() {
    let held = InternalAuthority { lease_permits: Some(true), database_closed: Some(false) };
    let revoked = InternalAuthority { lease_permits: Some(false), database_closed: None };
    let fenced = InternalAuthority { lease_permits: None, database_closed: Some(true) };

    assert_eq!(
        WriteAdmission::begin(true),
        WriteAdmission::Refused(FsError::ReadOnlyFilesystem)
    );
    let waiting = WriteAdmission::begin(false);
    assert_eq!(
        waiting.authority(revoked, false),
        WriteAdmission::Refused(FsError::LeaderLeaseExpired)
    );
    // Close is looked at under the barrier only.
    let at_barrier = waiting.authority(held, true);
    assert_eq!(at_barrier, WriteAdmission::AwaitBarrier);
    let under = at_barrier.barrier_held();
    assert_eq!(under.authority(held, false), WriteAdmission::Admitted);
    assert_eq!(
        under.authority(fenced, false),
        WriteAdmission::Refused(FsError::LeaderLeaseExpired)
    );
    assert_eq!(
        under.authority(held, true),
        WriteAdmission::Refused(FsError::ShuttingDown)
    );

    assert_eq!(check_put(true, fenced, true), Err(FsError::ReadOnlyFilesystem));
    assert_eq!(check_put(false, revoked, false), Err(FsError::LeaderLeaseExpired));
    assert_eq!(check_put(false, fenced, true), Err(FsError::LeaderLeaseExpired));
    assert_eq!(check_put(false, held, true), Err(FsError::ShuttingDown));
    assert_eq!(check_put(false, held, false), Ok(()));
    assert_eq!(check_flush(true, fenced, true), Err(FsError::ReadOnlyFilesystem));
    assert_eq!(check_flush(false, fenced, true), Err(FsError::LeaderLeaseExpired));
    assert_eq!(check_flush(false, held, true), Err(FsError::ShuttingDown));
    assert_eq!(check_flush(false, held, false), Ok(()));
    assert_eq!(check_internal_work(revoked, true), Err(FsError::LeaderLeaseExpired));
    assert_eq!(check_closing(true), Err(FsError::ShuttingDown));
}

#[test]
fn transactions_begin_on_writers_only() {
    assert!(new_transaction::<(), u64, u64>(false).is_ok());
    assert_eq!(
        new_transaction::<(), u64, u64>(true).err(),
        Some(FsError::ReadOnlyFilesystem)
    );
}

fn sorted(mut v: Vec<u64>) -> Vec<u64> {
    v.sort_unstable();
    v
}

#[test]
fn warms_new_ssts_once_across_flushes_and_compactions() {
    let mut t = WarmTracker::<u64>::new();

    // Initial manifest: warm everything.
    assert_eq!(sorted(t.plan(1, vec![10, 11, 12])), vec![10, 11, 12]);

    // A status notification that didn't bump the manifest id (e.g. a
    // durability advance): nothing to do.
    assert!(t.plan(1, vec![10, 11, 12]).is_empty());

    // An L0 flush adds one SST: only the new one is warmed.
    assert_eq!(sorted(t.plan(2, vec![10, 11, 12, 13])), vec![13]);

    // A compaction retires 11, 12, 13 into a new run 20 and keeps 10: only the
    // compaction output is cold, so only it is warmed.
    assert_eq!(sorted(t.plan(3, vec![10, 20])), vec![20]);

    // Re-presenting the same set after another change warms nothing.
    assert!(t.plan(4, vec![10, 20]).is_empty());

    // An id that was retired and reappears is treated as new (its blocks are
    // no longer guaranteed cached), so it warms again.
    assert_eq!(sorted(t.plan(5, vec![10, 20, 11])), vec![11]);
}

#[test]
fn a_manifest_without_metadata_changes_nothing() {
    let mut t = WarmTracker::<u64>::new();
    assert_eq!(t.plan_segment(1, Some(vec![10, 10])), vec![10]);
    assert!(t.plan_segment(2, None).is_empty());
    assert!(t.plan_segment(3, Some(vec![10])).is_empty());
    assert_eq!(warm_targets(false), vec![WarmTarget::Filters, WarmTarget::Index]);
    assert_eq!(
        warm_targets(true),
        vec![WarmTarget::Filters, WarmTarget::Index, WarmTarget::Data]
    );
}
