//! The key layout and the values stored under it.

use bytes::Bytes;
use zerofs::errors::FsError;
use zerofs::key_codec::{
    BranchId, KeyCodec, KeyPrefix, ParsedKey, BRANCH_ID_SIZE, BRANCH_TOMBSTONE_RECORD_VERSION,
    EXTENT_DOMAIN, EXTENT_KEY_SIZE, FLUSH_TIME_RECORD_VERSION, INODE_KEY_SIZE, META_DOMAIN,
    PREFIX_BRANCH, PREFIX_BRANCH_TOMBSTONE, PREFIX_DIR_COOKIE, PREFIX_DIR_ENTRY, PREFIX_EXTENT,
    PREFIX_FLUSH_TIME, PREFIX_FORK_LINEAGE, PREFIX_FORK_REGISTRY, PREFIX_INODE, PREFIX_ORPHAN,
    PREFIX_SEGCOUNT, PREFIX_SYSTEM, PREFIX_TOMBSTONE, U64_SIZE,
};
use zerofs::replication::{HaStamp, ShipSeqno, SoloHistory, WriterEpoch};

#[test]
fn test_dir_scan_parsing() {
    let codec = KeyCodec::new();
    let dir_id = 10u64;
    let cookie = 42u64;
    let key = codec.dir_scan_key(dir_id, cookie);

    match codec.parse_key(&key) {
        ParsedKey::DirScan {
            cookie: parsed_cookie,
        } => {
            assert_eq!(parsed_cookie, cookie);
        }
        _ => panic!("Failed to parse dir scan key"),
    }
}

#[test]
fn test_tombstone_parsing() {
    let codec = KeyCodec::new();
    let timestamp = 123456u64;
    let inode_id = 789u64;
    let key = codec.tombstone_key(timestamp, inode_id);

    match codec.parse_key(&key) {
        ParsedKey::Tombstone {
            inode_id: parsed_id,
        } => {
            assert_eq!(parsed_id, inode_id);
        }
        _ => panic!("Failed to parse tombstone key"),
    }
}

#[test]
fn test_extent_parsing() {
    let codec = KeyCodec::new();
    let inode_id = 7u64;
    let extent_index = 99u64;
    let key = codec.extent_key(inode_id, extent_index);
    assert_eq!(codec.parse_extent_key(key.as_ref()), Some(extent_index));
}

#[test]
fn test_layout_routing() {
    let codec = KeyCodec::new();
    let inode_key = codec.inode_key(0);
    assert!(inode_key.as_ref().starts_with(&META_DOMAIN));
    assert_eq!(inode_key.as_ref()[META_DOMAIN.len()], PREFIX_INODE);

    let extent_key = codec.extent_key(0, 0);
    assert!(extent_key.as_ref().starts_with(&EXTENT_DOMAIN));
    assert_eq!(extent_key.as_ref()[EXTENT_DOMAIN.len()], PREFIX_EXTENT);

    let tombstone = codec.tombstone_key(0, 0);
    assert!(tombstone.starts_with(&META_DOMAIN));

    // No metadata key should be misrouted into the extent domain.
    assert!(!inode_key.as_ref().starts_with(&EXTENT_DOMAIN));
    assert!(!tombstone.starts_with(&EXTENT_DOMAIN));
}

#[test]
fn segcount_key_roundtrips_and_orders() {
    let codec = KeyCodec::new();
    for (e, c) in [(0u64, 0u64), (5, 0x23b), (7, 255), (u64::MAX, u64::MAX)] {
        let k = codec.segcount_key(e, c);
        assert_eq!(k.len(), META_DOMAIN.len() + 1 + 16);
        assert!(k.starts_with(&META_DOMAIN));
        assert_eq!(k[META_DOMAIN.len()], PREFIX_SEGCOUNT);
        assert_eq!(codec.parse_segcount_key(&k), Some((e, c)));
    }
    // Big-endian id => creation-order scan.
    assert!(codec.segcount_key(5, 10).as_ref() < codec.segcount_key(5, 11).as_ref());
    assert!(codec.segcount_key(5, u64::MAX).as_ref() < codec.segcount_key(6, 0).as_ref());
    // The prefix range brackets every segcount key and excludes other kinds.
    let (start, end) = codec.segcount_prefix_range();
    let sc = codec.segcount_key(9, 9);
    assert!(sc.as_ref() >= start.as_ref() && sc.as_ref() < end.as_ref());
    let ino = codec.inode_key(9);
    assert!(!(ino.as_ref() >= start.as_ref() && ino.as_ref() < end.as_ref()));
    assert_eq!(codec.parse_segcount_key(ino.as_ref()), None);
}

#[test]
fn test_value_encoding() {
    let counter = 12345u64;
    let encoded = KeyCodec::encode_counter(counter);
    let decoded = KeyCodec::decode_counter(&encoded).unwrap();
    assert_eq!(decoded, counter);

    let inode_id = 999u64;
    let cookie = 42u64;
    let encoded = KeyCodec::encode_dir_entry(inode_id, cookie);
    let (decoded_id, decoded_cookie) = KeyCodec::decode_dir_entry(&encoded).unwrap();
    assert_eq!(decoded_id, inode_id);
    assert_eq!(decoded_cookie, cookie);

    let size = 1024u64;
    let encoded = KeyCodec::encode_tombstone_size(size);
    let decoded = KeyCodec::decode_tombstone_size(&encoded).unwrap();
    assert_eq!(decoded, size);
}

#[test]
fn test_ha_stamp_encoding() {
    let (epoch, seqno, solo, applied_through) = (7u64, 123456u64, 3u64, 123458u64);
    let stamp = HaStamp::new(
        WriterEpoch::new(epoch).unwrap(),
        ShipSeqno::new(seqno),
        SoloHistory::ever(solo),
        ShipSeqno::new(applied_through),
    )
    .unwrap();
    let encoded = KeyCodec::encode_ha_stamp(&stamp);
    assert_eq!(KeyCodec::decode_ha_stamp(&encoded), Some(stamp));
    // A transitional four-field layout never existed and remains invalid.
    assert_eq!(KeyCodec::decode_ha_stamp(&encoded[..32]), None);
    // Durable legacy layouts migrate conservatively: the shipped seqno is
    // known applied, but missing Solo history disables retry grace.
    let legacy_three_field = HaStamp::new(
        WriterEpoch::new(epoch).unwrap(),
        ShipSeqno::new(seqno),
        SoloHistory::ever(solo),
        ShipSeqno::new(seqno),
    )
    .unwrap();
    assert_eq!(
        KeyCodec::decode_ha_stamp(&encoded[..24]),
        Some(legacy_three_field)
    );
    let legacy_two_field = HaStamp::new(
        WriterEpoch::new(epoch).unwrap(),
        ShipSeqno::new(seqno),
        SoloHistory::ever(0),
        ShipSeqno::new(seqno),
    )
    .unwrap();
    assert_eq!(
        KeyCodec::decode_ha_stamp(&encoded[..16]),
        Some(legacy_two_field)
    );
    let mut legacy_solo_from_birth = Vec::with_capacity(U64_SIZE * 3);
    legacy_solo_from_birth.extend_from_slice(&epoch.to_le_bytes());
    legacy_solo_from_birth.extend_from_slice(&0u64.to_le_bytes());
    legacy_solo_from_birth.extend_from_slice(&2u64.to_le_bytes());
    let legacy_solo_from_birth_stamp = HaStamp::new(
        WriterEpoch::new(epoch).unwrap(),
        None,
        SoloHistory::ever(2),
        None,
    )
    .unwrap();
    assert_eq!(
        KeyCodec::decode_ha_stamp(&legacy_solo_from_birth),
        Some(legacy_solo_from_birth_stamp),
        "a pre-upgrade writer may have committed Solo before its first ship"
    );
    // Wrong length is rejected, not silently misread.
    assert_eq!(KeyCodec::decode_ha_stamp(&encoded[..8]), None);
    assert_eq!(KeyCodec::decode_ha_stamp(&[]), None);

    let mut zero_epoch = encoded.to_vec();
    zero_epoch[..8].copy_from_slice(&0u64.to_le_bytes());
    assert_eq!(
        KeyCodec::decode_ha_stamp(&zero_epoch),
        None,
        "zero is the absence sentinel, not a valid HA writer epoch"
    );

    let mut regressed = encoded.to_vec();
    regressed[24..32].copy_from_slice(&(seqno - 1).to_le_bytes());
    assert_eq!(
        KeyCodec::decode_ha_stamp(&regressed),
        None,
        "an applied frontier behind an acknowledged ship is invalid"
    );

    let mut invalid_solo_ever = encoded.to_vec();
    invalid_solo_ever[32..].copy_from_slice(&2u64.to_le_bytes());
    assert_eq!(
        KeyCodec::decode_ha_stamp(&invalid_solo_ever),
        None,
        "the durable Solo-history bit accepts only canonical boolean values"
    );

    let never_solo = HaStamp::new(
        WriterEpoch::new(epoch).unwrap(),
        ShipSeqno::new(seqno),
        SoloHistory::never(),
        ShipSeqno::new(seqno),
    )
    .unwrap();
    let inconsistent_solo_history = KeyCodec::encode_ha_stamp(&never_solo);
    let mut inconsistent_solo_history = inconsistent_solo_history.to_vec();
    inconsistent_solo_history[16..24].copy_from_slice(&1u64.to_le_bytes());
    assert_eq!(
        KeyCodec::decode_ha_stamp(&inconsistent_solo_history),
        None,
        "a positive current Solo count cannot claim the term never ran Solo"
    );

    // The HA-stamp key is distinct from the inode counter (both System-prefixed).
    let codec = KeyCodec::new();
    assert_ne!(codec.ha_seqno_key(), codec.system_counter_key());
}

#[test]
fn last_orphan_sweep_key_is_distinct_system_key() {
    let codec = KeyCodec::new();
    let k = codec.last_orphan_sweep_key();
    assert!(k.starts_with(&META_DOMAIN));
    assert_eq!(k[codec.kind_offset(KeyPrefix::System)], PREFIX_SYSTEM);
    // Must not alias any other System-subtyped key.
    for other in [
        codec.system_counter_key(),
        codec.ha_seqno_key(),
        codec.lineage_key(),
        codec.taint_key(),
    ] {
        assert_ne!(k, other);
    }
}

#[test]
fn flush_time_keys_order_by_manifest_id_and_roundtrip() {
    let codec = KeyCodec::new();
    let key = codec.flush_time_key(42);
    assert!(key.starts_with(&META_DOMAIN));
    assert_eq!(
        key[codec.kind_offset(KeyPrefix::FlushTime)],
        PREFIX_FLUSH_TIME
    );
    assert_eq!(codec.parse_flush_time_key(&key), Some(42));

    // Big-endian manifest id => publication-order scan.
    assert!(codec.flush_time_key(2).as_ref() < codec.flush_time_key(10).as_ref());

    // The prefix brackets every index entry and nothing else.
    let prefix = codec.flush_time_prefix();
    assert!(key.starts_with(&prefix));
    assert!(!codec.fork_registry_key("f1").starts_with(&prefix));
    assert!(!codec.fork_lineage_key().starts_with(&prefix));
    assert!(!codec.inode_key(42).as_ref().starts_with(&prefix));
    assert_eq!(
        codec.parse_flush_time_key(codec.inode_key(42).as_ref()),
        None
    );

    // Value: version byte + (epoch seconds, nanos), roundtripping and
    // rejecting unknown versions and wrong lengths.
    let encoded = KeyCodec::encode_flush_time(1_700_000_000, 42);
    assert_eq!(
        KeyCodec::decode_flush_time(&encoded),
        Some((1_700_000_000, 42))
    );
    let mut future = encoded.to_vec();
    future[0] = FLUSH_TIME_RECORD_VERSION + 1;
    assert_eq!(KeyCodec::decode_flush_time(&future), None);
    assert_eq!(KeyCodec::decode_flush_time(&encoded[..4]), None);
    assert_eq!(KeyCodec::decode_flush_time(&[]), None);
}

#[test]
fn fork_keys_live_in_the_meta_domain() {
    let codec = KeyCodec::new();
    let lineage = codec.fork_lineage_key();
    assert!(lineage.starts_with(&META_DOMAIN));
    assert_eq!(lineage[META_DOMAIN.len()], PREFIX_FORK_LINEAGE);

    let registry = codec.fork_registry_key("agent-1");
    assert!(registry.starts_with(&META_DOMAIN));
    assert_eq!(registry[META_DOMAIN.len()], PREFIX_FORK_REGISTRY);
    assert!(registry.ends_with(b"agent-1"));

    // The registry prefix brackets every registry entry and nothing else.
    let prefix = codec.fork_registry_prefix();
    assert!(registry.starts_with(&prefix));
    assert!(!codec.inode_key(9).as_ref().starts_with(&prefix));
    assert!(!codec.segcount_key(1, 1).starts_with(&prefix));
    assert!(!lineage.starts_with(&prefix));
}

#[test]
fn test_invalid_key_parsing() {
    let codec = KeyCodec::new();
    assert!(matches!(codec.parse_key(&[]), ParsedKey::Unknown));
    assert!(matches!(codec.parse_key(&[0xFF]), ParsedKey::Unknown));
    assert!(matches!(
        codec.parse_key(&[u8::from(KeyPrefix::Inode)]),
        ParsedKey::Unknown
    ));
    let inode_key = codec.inode_key(1);
    assert!(matches!(
        codec.parse_key(inode_key.as_ref()),
        ParsedKey::Unknown
    ));
}

fn test_branch() -> BranchId {
    BranchId(0x01020304)
}

fn branch_codec() -> KeyCodec {
    KeyCodec::for_branch(test_branch())
}

/// Exact expected bytes for `domain || kind || [branch?] || suffix`.
fn expected_key(domain: &[u8], kind: u8, branch: Option<BranchId>, suffix: &[u8]) -> Vec<u8> {
    let mut v = domain.to_vec();
    v.push(kind);
    if let Some(branch) = branch {
        v.extend_from_slice(&branch.0.to_be_bytes());
    }
    v.extend_from_slice(suffix);
    v
}

#[test]
fn branch_zero_is_byte_identical_to_the_legacy_layout() {
    let codec = KeyCodec::new();
    assert_eq!(codec.branch(), BranchId::root());
    // The root codec and an explicit `for_branch(root)` codec agree, and
    // both emit exactly `domain || kind || suffix` with no branch bytes.
    for c in [KeyCodec::new(), KeyCodec::for_branch(BranchId::root())] {
        assert_eq!(
            c.inode_key(7).as_ref(),
            expected_key(&META_DOMAIN, PREFIX_INODE, None, &7u64.to_be_bytes()).as_slice()
        );
        assert_eq!(
            c.extent_key(7, 9).as_ref(),
            expected_key(
                &EXTENT_DOMAIN,
                PREFIX_EXTENT,
                None,
                &[7u64.to_be_bytes(), 9u64.to_be_bytes()].concat(),
            )
            .as_slice()
        );
        assert_eq!(
            c.segcount_key(3, 4).as_ref(),
            expected_key(
                &META_DOMAIN,
                PREFIX_SEGCOUNT,
                None,
                &[3u64.to_be_bytes(), 4u64.to_be_bytes()].concat(),
            )
            .as_slice()
        );
        assert_eq!(c.inode_key_size(), INODE_KEY_SIZE);
        assert_eq!(c.extent_key_size(), EXTENT_KEY_SIZE);
    }
    assert_eq!(codec, KeyCodec::default());
}

#[test]
fn scoped_kinds_embed_the_branch_id_after_the_kind_byte() {
    let codec = branch_codec();
    let b = Some(test_branch());

    assert_eq!(
        codec.inode_key(7).as_ref(),
        expected_key(&META_DOMAIN, PREFIX_INODE, b, &7u64.to_be_bytes()).as_slice()
    );
    assert_eq!(
        codec.dir_entry_key(7, b"name").as_ref(),
        expected_key(
            &META_DOMAIN,
            PREFIX_DIR_ENTRY,
            b,
            &[&7u64.to_be_bytes()[..], b"name"].concat(),
        )
        .as_slice()
    );
    assert_eq!(
        codec.dir_cookie_counter_key(7).as_ref(),
        expected_key(&META_DOMAIN, PREFIX_DIR_COOKIE, b, &7u64.to_be_bytes()).as_slice()
    );
    assert_eq!(
        codec.tombstone_key(11, 7).as_ref(),
        expected_key(
            &META_DOMAIN,
            PREFIX_TOMBSTONE,
            b,
            &[11u64.to_be_bytes(), 7u64.to_be_bytes()].concat(),
        )
        .as_slice()
    );
    assert_eq!(
        codec.orphan_key(7).as_ref(),
        expected_key(&META_DOMAIN, PREFIX_ORPHAN, b, &7u64.to_be_bytes()).as_slice()
    );
    assert_eq!(
        codec.segcount_key(3, 4).as_ref(),
        expected_key(
            &META_DOMAIN,
            PREFIX_SEGCOUNT,
            b,
            &[3u64.to_be_bytes(), 4u64.to_be_bytes()].concat(),
        )
        .as_slice()
    );
    assert_eq!(
        codec.extent_key(7, 9).as_ref(),
        expected_key(
            &EXTENT_DOMAIN,
            PREFIX_EXTENT,
            b,
            &[7u64.to_be_bytes(), 9u64.to_be_bytes()].concat(),
        )
        .as_slice()
    );

    assert_eq!(codec.inode_key_size(), INODE_KEY_SIZE + BRANCH_ID_SIZE);
    assert_eq!(codec.extent_key_size(), EXTENT_KEY_SIZE + BRANCH_ID_SIZE);
}

#[test]
fn unscoped_kinds_keep_the_global_layout_under_a_branch_codec() {
    let codec = branch_codec();
    let root = KeyCodec::new();

    // Every unscoped key builder must emit byte-identical keys for the
    // root codec and a branch codec.
    assert_eq!(codec.dir_scan_key(7, 42), root.dir_scan_key(7, 42));
    assert_eq!(
        codec.dir_scan_resume_key(7, 42),
        root.dir_scan_resume_key(7, 42)
    );
    assert_eq!(codec.stats_shard_key(3), root.stats_shard_key(3));
    assert_eq!(codec.system_counter_key(), root.system_counter_key());
    assert_eq!(codec.ha_seqno_key(), root.ha_seqno_key());
    assert_eq!(codec.lineage_key(), root.lineage_key());
    assert_eq!(codec.taint_key(), root.taint_key());
    assert_eq!(
        codec.last_orphan_sweep_key(),
        root.last_orphan_sweep_key()
    );
    assert_eq!(codec.fork_lineage_key(), root.fork_lineage_key());
    assert_eq!(codec.fork_registry_key("f"), root.fork_registry_key("f"));
    assert_eq!(codec.flush_time_key(9), root.flush_time_key(9));
    assert_eq!(
        codec.branch_registry_key("b"),
        root.branch_registry_key("b")
    );
    assert_eq!(codec.branch_counter_key(), root.branch_counter_key());

    // None of them grew branch bytes.
    assert_eq!(
        codec.dir_scan_key(7, 42).len(),
        META_DOMAIN.len() + 1 + U64_SIZE * 2
    );
    assert_eq!(
        codec.branch_registry_key("b").as_ref(),
        expected_key(&META_DOMAIN, PREFIX_BRANCH, None, b"b").as_slice()
    );
}

#[test]
fn is_scoped_matches_the_documented_split() {
    for kind in [
        KeyPrefix::Inode,
        KeyPrefix::DirEntry,
        KeyPrefix::DirCookie,
        KeyPrefix::Tombstone,
        KeyPrefix::Orphan,
        KeyPrefix::SegCount,
        KeyPrefix::Extent,
    ] {
        assert!(kind.is_scoped(), "{kind:?} must be branch-scoped");
    }
    for kind in [
        KeyPrefix::DirScan,
        KeyPrefix::Stats,
        KeyPrefix::System,
        KeyPrefix::ForkLineage,
        KeyPrefix::ForkRegistry,
        KeyPrefix::FlushTime,
        KeyPrefix::BranchTombstone,
        KeyPrefix::Branch,
    ] {
        assert!(!kind.is_scoped(), "{kind:?} must keep the global layout");
    }
}

#[test]
fn id_offset_shifts_only_for_scoped_kinds_under_a_branch() {
    let root = KeyCodec::new();
    let codec = branch_codec();
    for kind in [
        KeyPrefix::Inode,
        KeyPrefix::DirEntry,
        KeyPrefix::DirCookie,
        KeyPrefix::Tombstone,
        KeyPrefix::Orphan,
        KeyPrefix::SegCount,
        KeyPrefix::Extent,
    ] {
        assert_eq!(
            codec.id_offset(kind),
            root.id_offset(kind) + BRANCH_ID_SIZE,
            "{kind:?}"
        );
        assert_eq!(codec.kind_offset(kind), root.kind_offset(kind), "{kind:?}");
    }
    for kind in [KeyPrefix::DirScan, KeyPrefix::FlushTime, KeyPrefix::Branch] {
        assert_eq!(codec.id_offset(kind), root.id_offset(kind), "{kind:?}");
    }
}

#[test]
fn strip_branch_recovers_the_parent_key() {
    let codec = branch_codec();
    let root = KeyCodec::new();

    for (branched, parent) in [
        (
            Bytes::from(codec.inode_key(7)),
            Bytes::from(root.inode_key(7)),
        ),
        (
            codec.dir_entry_key(7, b"name"),
            root.dir_entry_key(7, b"name"),
        ),
        (codec.segcount_key(3, 4), root.segcount_key(3, 4)),
        (
            Bytes::from(codec.extent_key(7, 9)),
            Bytes::from(root.extent_key(7, 9)),
        ),
        (codec.tombstone_key(1, 7), root.tombstone_key(1, 7)),
        (codec.orphan_key(7), root.orphan_key(7)),
    ] {
        assert_eq!(codec.strip_branch(&branched), Some(parent));
    }

    // Root keys have no branch bytes to strip.
    assert_eq!(root.strip_branch(&root.inode_key(7).as_ref()), None);
    // Unscoped keys are never stripped.
    assert_eq!(codec.strip_branch(&codec.dir_scan_key(7, 42)), None);
    assert_eq!(codec.strip_branch(&codec.branch_registry_key("b")), None);
    // Foreign-branch keys are not this branch's to strip.
    let other = KeyCodec::for_branch(BranchId(0x0A0B0C0D));
    assert_eq!(codec.strip_branch(other.inode_key(7).as_ref()), None);
    // Garbage is rejected, never silently mangled.
    assert_eq!(codec.strip_branch(&[]), None);
    assert_eq!(codec.strip_branch(&[0xFF; 32]), None);
    assert_eq!(codec.strip_branch(&codec.inode_key(7).as_ref()[..8]), None);
}

#[test]
fn branch_tombstone_key_marks_the_shadowed_parent_key() {
    let codec = branch_codec();
    let shadowed = codec.inode_key(7);
    let tombstone = codec
        .branch_tombstone_key(shadowed.as_ref())
        .expect("scoped branch key");
    assert_eq!(
        tombstone.as_ref(),
        expected_key(
            &META_DOMAIN,
            PREFIX_BRANCH_TOMBSTONE,
            Some(test_branch()),
            &[PREFIX_INODE, 0, 0, 0, 0, 0, 0, 0, 7],
        )
        .as_slice()
    );

    // Extent keys tombstone into the meta domain too; the shadowed kind
    // byte (0xFE) preserves which domain the shadowed key lived in.
    let extent_tombstone = codec
        .branch_tombstone_key(codec.extent_key(7, 9).as_ref())
        .expect("scoped extent key");
    assert_eq!(
        extent_tombstone.as_ref(),
        expected_key(
            &META_DOMAIN,
            PREFIX_BRANCH_TOMBSTONE,
            Some(test_branch()),
            &[
                &[PREFIX_EXTENT][..],
                &7u64.to_be_bytes(),
                &9u64.to_be_bytes()
            ]
            .concat(),
        )
        .as_slice()
    );

    // The value is a bare version byte; presence is the signal.
    assert_eq!(
        KeyCodec::branch_tombstone_value().as_ref(),
        &[BRANCH_TOMBSTONE_RECORD_VERSION]
    );

    // Unscoped, root, and foreign-branch keys cannot be tombstoned here.
    assert_eq!(codec.branch_tombstone_key(&codec.dir_scan_key(7, 42)), None);
    let root = KeyCodec::new();
    assert_eq!(root.branch_tombstone_key(root.inode_key(7).as_ref()), None);
    let other = KeyCodec::for_branch(BranchId(9));
    assert_eq!(codec.branch_tombstone_key(other.inode_key(7).as_ref()), None);
}

#[test]
fn parse_any_segcount_key_reads_every_scope() {
    let root = KeyCodec::new();
    let branch = KeyCodec::for_branch(BranchId(7));

    // Root-layout and branch-layout rows both decode; the branch id is
    // skipped, not validated (a census cares about (epoch, counter)).
    assert_eq!(
        KeyCodec::parse_any_segcount_key(&root.segcount_key(3, 4)),
        Some((3, 4))
    );
    assert_eq!(
        KeyCodec::parse_any_segcount_key(&branch.segcount_key(3, 4)),
        Some((3, 4))
    );

    // Other kinds and malformed rows are rejected.
    assert_eq!(KeyCodec::parse_any_segcount_key(root.inode_key(3).as_ref()), None);
    assert_eq!(KeyCodec::parse_any_segcount_key(b"meta\x09\x01"), None);
    assert_eq!(
        KeyCodec::parse_any_segcount_key(&branch.segcount_key(3, 4)[..8]),
        None
    );
}

#[test]
fn branch_tombstone_range_brackets_exactly_one_branch() {
    let codec = KeyCodec::for_branch(BranchId(3));
    let sibling = KeyCodec::for_branch(BranchId(4));

    // The root codec has no tombstone range (the whole-kind range would
    // cover other branches' rows).
    assert_eq!(KeyCodec::new().branch_tombstone_range(), None);

    let (start, end) = codec.branch_tombstone_range().unwrap();
    let mine = codec
        .branch_tombstone_key(codec.inode_key(1).as_ref())
        .unwrap();
    assert!(mine.as_ref() >= start.as_ref() && mine.as_ref() < end.as_ref());
    let foreign = sibling
        .branch_tombstone_key(sibling.inode_key(1).as_ref())
        .unwrap();
    assert!(!(foreign.as_ref() >= start.as_ref() && foreign.as_ref() < end.as_ref()));

    // u32::MAX has no successor; the range falls back to the next kind.
    let max = KeyCodec::for_branch(BranchId(u32::MAX));
    let (start, end) = max.branch_tombstone_range().unwrap();
    let mine = max
        .branch_tombstone_key(max.inode_key(1).as_ref())
        .unwrap();
    assert!(mine.as_ref() >= start.as_ref() && mine.as_ref() < end.as_ref());
}

#[test]
fn branch_prefix_range_brackets_exactly_one_branch() {
    let codec = KeyCodec::for_branch(BranchId(1));
    let root = KeyCodec::new();
    let sibling = KeyCodec::for_branch(BranchId(2));

    let (start, end) = codec.prefix_range(KeyPrefix::SegCount);
    let mine = codec.segcount_key(9, 9);
    assert!(mine.as_ref() >= start.as_ref() && mine.as_ref() < end.as_ref());
    // Neither the parent's nor a sibling's segcount keys fall in range.
    for foreign in [root.segcount_key(9, 9), sibling.segcount_key(9, 9)] {
        assert!(
            !(foreign.as_ref() >= start.as_ref() && foreign.as_ref() < end.as_ref()),
            "foreign-branch key leaked into the branch prefix range"
        );
    }

    // The root codec's range covers the whole kind, branches included.
    let (root_start, root_end) = root.prefix_range(KeyPrefix::SegCount);
    for key in [root.segcount_key(1, 1), mine.clone()] {
        assert!(key.as_ref() >= root_start.as_ref() && key.as_ref() < root_end.as_ref());
    }

    // Same bracketing in the extent domain.
    let (start, end) = codec.prefix_range(KeyPrefix::Extent);
    assert!(codec.extent_key(1, 0).as_ref() >= start.as_ref()
        && codec.extent_key(1, 0).as_ref() < end.as_ref());
    assert!(!(root.extent_key(1, 0).as_ref() >= start.as_ref()
        && root.extent_key(1, 0).as_ref() < end.as_ref()));
    assert!(!(sibling.extent_key(1, 0).as_ref() >= start.as_ref()
        && sibling.extent_key(1, 0).as_ref() < end.as_ref()));
}

#[test]
fn scoped_branched_keys_sort_by_branch_then_suffix() {
    let b1 = KeyCodec::for_branch(BranchId(1));
    let b2 = KeyCodec::for_branch(BranchId(2));
    // Within one branch, suffix order is preserved.
    assert!(b1.inode_key(7).as_ref() < b1.inode_key(8).as_ref());
    assert!(b1.segcount_key(5, 10).as_ref() < b1.segcount_key(5, 11).as_ref());
    // Branches never interleave: all of branch 1 sorts before branch 2.
    assert!(b1.inode_key(u64::MAX).as_ref() < b2.inode_key(0).as_ref());
    assert!(b1.segcount_key(u64::MAX, u64::MAX).as_ref() < b2.segcount_key(0, 0).as_ref());
    // The parent (no branch bytes) sorts before any branch's slice: its
    // suffix's first byte compares against the branch id's high byte.
    let root = KeyCodec::new();
    assert!(root.inode_key(0).as_ref() < b1.inode_key(0).as_ref());
}

#[test]
fn branch_codecs_parse_their_own_scoped_keys() {
    let codec = branch_codec();
    let root = KeyCodec::new();

    // Segcount roundtrips through the branch codec; the root codec
    // rejects the widened key (wrong length) and vice versa.
    let key = codec.segcount_key(3, 4);
    assert_eq!(codec.parse_segcount_key(&key), Some((3, 4)));
    assert_eq!(root.parse_segcount_key(&key), None);
    assert_eq!(codec.parse_segcount_key(&root.segcount_key(3, 4)), None);

    let extent = codec.extent_key(7, 9);
    assert_eq!(codec.parse_extent_key(extent.as_ref()), Some(9));
    assert_eq!(codec.parse_extent_key_full(extent.as_ref()), Some((7, 9)));
    assert_eq!(root.parse_extent_key(extent.as_ref()), None);

    // parse_key is branch-aware through id_offset as well.
    match codec.parse_key(&codec.tombstone_key(11, 7)) {
        ParsedKey::Tombstone { inode_id } => assert_eq!(inode_id, 7),
        other => panic!("expected Tombstone, got {other:?}"),
    }
    match codec.parse_key(&codec.orphan_key(7)) {
        ParsedKey::Orphan { inode_id } => assert_eq!(inode_id, 7),
        other => panic!("expected Orphan, got {other:?}"),
    }
}

#[test]
fn branch_registry_keys_are_global_and_well_bracketed() {
    let codec = KeyCodec::new();
    let entry = codec.branch_registry_key("agent-1");
    assert!(entry.starts_with(&META_DOMAIN));
    assert_eq!(entry[META_DOMAIN.len()], PREFIX_BRANCH);
    assert!(entry.ends_with(b"agent-1"));

    let prefix = codec.branch_registry_prefix();
    assert!(entry.starts_with(&prefix));
    assert!(!codec.fork_registry_key("agent-1").starts_with(&prefix));
    assert!(!codec.inode_key(9).as_ref().starts_with(&prefix));
    assert!(!codec.branch_counter_key().starts_with(&prefix));

    // The id counter is a System-subtyped key distinct from its siblings.
    let counter = codec.branch_counter_key();
    assert_eq!(counter[codec.kind_offset(KeyPrefix::System)], PREFIX_SYSTEM);
    for other in [
        codec.system_counter_key(),
        codec.ha_seqno_key(),
        codec.lineage_key(),
        codec.taint_key(),
        codec.last_orphan_sweep_key(),
    ] {
        assert_ne!(counter, other);
    }
}

#[test]
fn branched_fixed_keys_compare_and_hash_by_key_bytes() {
    let codec = branch_codec();
    let root = KeyCodec::new();
    // Same logical key, different layouts: unequal, ordered by raw bytes.
    assert_ne!(codec.inode_key(7), root.inode_key(7));
    assert_eq!(codec.inode_key(7), codec.inode_key(7));
    assert!(root.inode_key(7) < codec.inode_key(7));
    assert!(codec.extent_key(7, 1) < codec.extent_key(7, 2));
    let mut set = std::collections::HashSet::new();
    set.insert(codec.inode_key(7));
    assert!(set.contains(&codec.inode_key(7)));
    assert!(!set.contains(&root.inode_key(7)));
}

#[test]
fn scoped_suffix_strips_domain_kind_and_branch() {
    let root = KeyCodec::new();
    let branch = KeyCodec::for_branch(BranchId(7));

    // Root codec: suffix follows `domain || kind`.
    let root_entry = root.dir_entry_key(3, b"name");
    let mut expected = 3u64.to_be_bytes().to_vec();
    expected.extend_from_slice(b"name");
    assert_eq!(root.scoped_suffix(&root_entry).unwrap(), expected.as_slice());

    // Branch codec: suffix follows `domain || kind || branch`, and equals
    // the parent's suffix for the same logical entry.
    let branch_entry = branch.dir_entry_key(3, b"name");
    assert_eq!(
        branch.scoped_suffix(&branch_entry).unwrap(),
        root.scoped_suffix(&root_entry).unwrap()
    );

    // Wrong branch, unscoped kinds, and junk are rejected.
    assert!(
        KeyCodec::for_branch(BranchId(8))
            .scoped_suffix(&branch_entry)
            .is_none()
    );
    assert!(root.scoped_suffix(&root.stats_shard_key(0)).is_none());
    assert!(root.scoped_suffix(b"nonsense").is_none());
    // The root codec does not read a branch key as a longer root key.
    assert!(root.scoped_suffix(&branch_entry).is_some_and(|s| {
        // Root layout reads the branch bytes as suffix payload; that is
        // fine (the codecs serve different scopes) but must never equal
        // the parent suffix.
        s != root.scoped_suffix(&root_entry).unwrap()
    }));
}

#[test]
fn adopt_parent_key_inverts_strip_branch() {
    let branch = KeyCodec::for_branch(BranchId(9));
    let root = KeyCodec::new();

    for (parent, branch_key) in [
        (
            root.dir_entry_key(1, b"file"),
            branch.dir_entry_key(1, b"file"),
        ),
        (
            Bytes::from(root.inode_key(42)),
            Bytes::from(branch.inode_key(42)),
        ),
        (
            Bytes::from(root.extent_key(5, 6)),
            Bytes::from(branch.extent_key(5, 6)),
        ),
    ] {
        assert_eq!(branch.strip_branch(&branch_key).unwrap(), parent);
        assert_eq!(branch.adopt_parent_key(&parent).unwrap(), branch_key);
    }

    // Root codec and unscoped keys have nothing to adopt.
    assert!(root.adopt_parent_key(&root.dir_entry_key(1, b"x")).is_none());
    assert!(
        branch
            .adopt_parent_key(&root.stats_shard_key(0))
            .is_none()
    );
}

#[test]
fn branch_tombstone_prefix_covers_exactly_one_kinds_shadows() {
    let codec = KeyCodec::for_branch(BranchId(3));
    let dir3_suffix = {
        let mut s = 3u64.to_be_bytes().to_vec();
        s.extend_from_slice(b"old-name");
        s
    };
    let shadowed = codec.dir_entry_key(3, b"old-name");
    let tombstone = codec.branch_tombstone_key(&shadowed).unwrap();

    // The row parses back to its shadowed (kind, suffix).
    assert_eq!(
        codec.parse_branch_tombstone_key(&tombstone).unwrap(),
        (KeyPrefix::DirEntry, dir3_suffix.as_slice())
    );

    // The (kind, suffix-prefix) range for a directory covers the row;
    // sibling kinds and other branches' rows fall outside.
    let prefix = codec.branch_tombstone_prefix(KeyPrefix::DirEntry, &3u64.to_be_bytes());
    assert!(tombstone.starts_with(&prefix));
    let inode_prefix = codec.branch_tombstone_prefix(KeyPrefix::Inode, b"");
    assert!(!tombstone.starts_with(&inode_prefix));
    assert!(
        KeyCodec::for_branch(BranchId(4))
            .parse_branch_tombstone_key(&tombstone)
            .is_none()
    );
    assert!(
        KeyCodec::new()
            .parse_branch_tombstone_key(&tombstone)
            .is_none()
    );
}

#[test]
fn branch_tombstone_bound_re_roots_parent_bounds() {
    let codec = KeyCodec::for_branch(BranchId(2));
    let root = KeyCodec::new();

    // A within-kind bound: kind byte and suffix are preserved verbatim.
    let bound = root.dir_entry_key(8, b"n");
    let tomb_bound = codec.branch_tombstone_bound(&bound).unwrap();
    assert_eq!(
        codec.parse_branch_tombstone_key(&tomb_bound).unwrap(),
        (KeyPrefix::DirEntry, root.scoped_suffix(&bound).unwrap())
    );

    // A kind-end bound (`domain || kind + 1`) maps to the end of that
    // kind's tombstone space even though 0x03 (DIR_SCAN) is unscoped.
    let kind_end = Bytes::from_static(b"meta\x03");
    let tomb_end = codec.branch_tombstone_bound(&kind_end).unwrap();
    let entry_tombstone = codec
        .branch_tombstone_key(&codec.dir_entry_key(1, b"a"))
        .unwrap();
    assert!(entry_tombstone.as_ref() < tomb_end.as_ref());
    let scan_tombstone_prefix = codec.branch_tombstone_prefix(KeyPrefix::DirScan, b"");
    assert!(scan_tombstone_prefix.as_ref() >= tomb_end.as_ref());

    // Extent-domain bounds re-root into the meta-domain tombstone space.
    let extent_bound: Bytes = root.extent_key(1, 0).into();
    assert!(
        codec
            .branch_tombstone_bound(&extent_bound)
            .unwrap()
            .starts_with(&META_DOMAIN)
    );

    // Root codec and out-of-domain bounds are rejected.
    assert!(root.branch_tombstone_bound(&bound).is_none());
    assert!(codec.branch_tombstone_bound(b"other").is_none());
}

#[test]
fn dir_entry_prefix_orders_entries_by_name() {
    let codec = KeyCodec::for_branch(BranchId(5));
    let prefix = codec.dir_entry_prefix(4);
    assert!(codec.dir_entry_key(4, b"a").starts_with(&prefix));
    assert!(codec.dir_entry_key(4, b"z").starts_with(&prefix));
    assert!(!codec.dir_entry_key(5, b"a").starts_with(&prefix));
    // Byte order of names is the scan order within the prefix.
    assert!(codec.dir_entry_key(4, b"a") < codec.dir_entry_key(4, b"b"));
    // Branch isolation: another branch's entries are not covered.
    assert!(
        !KeyCodec::for_branch(BranchId(6))
            .dir_entry_key(4, b"a")
            .starts_with(&prefix)
    );
    // Root codec's prefix is the historical layout (no branch bytes).
    let root_prefix = KeyCodec::new().dir_entry_prefix(4);
    assert!(KeyCodec::new().dir_entry_key(4, b"a").starts_with(&root_prefix));
    assert!(!codec.dir_entry_key(4, b"a").starts_with(&root_prefix));
}

#[test]
fn number_keys_round_trip_and_order() {
    let codec = KeyCodec::new();
    let points = [0u64, 1, 255, 256, 0x0102_0304_0506_0708, u64::MAX - 1, u64::MAX];
    for a0 in points {
        for a1 in points {
            let extent = codec.extent_key(a0, a1);
            assert_eq!(codec.parse_extent_key(extent.as_ref()), Some(a1));
            assert_eq!(codec.parse_extent_key_full(extent.as_ref()), Some((a0, a1)));
            assert_eq!(
                codec.parse_key(&codec.tombstone_key(a0, a1)),
                ParsedKey::Tombstone { inode_id: a1 }
            );
            assert_eq!(
                codec.parse_key(&codec.dir_scan_key(a0, a1)),
                ParsedKey::DirScan { cookie: a1 }
            );
            for b0 in points {
                for b1 in points {
                    let order = (a0, a1).cmp(&(b0, b1));
                    assert_eq!(
                        extent.as_ref().cmp(codec.extent_key(b0, b1).as_ref()),
                        order
                    );
                    assert_eq!(
                        codec.tombstone_key(a0, a1).cmp(&codec.tombstone_key(b0, b1)),
                        order
                    );
                    assert_eq!(
                        codec.dir_scan_key(a0, a1).cmp(&codec.dir_scan_key(b0, b1)),
                        order
                    );
                }
            }
        }
    }
}

#[test]
fn dir_scan_resume_is_the_next_cookie() {
    let codec = KeyCodec::new();
    for cookie in [0u64, 41, 255, u64::MAX - 1] {
        let resume = codec.dir_scan_resume_key(7, cookie);
        assert_eq!(resume, codec.dir_scan_key(7, cookie + 1));
        assert!(resume > codec.dir_scan_key(7, cookie));
    }
}

#[test]
fn orphan_keys_round_trip() {
    let codec = KeyCodec::new();
    for ino in [0u64, 7, 1 << 32, u64::MAX] {
        assert_eq!(
            codec.parse_key(&codec.orphan_key(ino)),
            ParsedKey::Orphan { inode_id: ino }
        );
    }
}

#[test]
fn other_kinds_never_parse_as_extents() {
    let codec = KeyCodec::new();
    for (ino, x) in [(0u64, 0u64), (7, 9), (u64::MAX, u64::MAX)] {
        assert_eq!(codec.parse_extent_key(codec.inode_key(ino).as_ref()), None);
        assert_eq!(codec.parse_extent_key(&codec.tombstone_key(x, ino)), None);
        assert_eq!(codec.parse_extent_key(&codec.orphan_key(ino)), None);
        assert_eq!(codec.parse_extent_key(&codec.dir_scan_key(ino, x)), None);
        // A name that makes the key as long as an extent key.
        assert_eq!(codec.parse_extent_key(&codec.dir_entry_key(ino, b"0123456789")), None);
    }
}

#[test]
fn values_round_trip() {
    for (x, y) in [(1u64, 0u64), (7, 3), (u64::MAX, u64::MAX)] {
        assert_eq!(KeyCodec::decode_u64(&KeyCodec::encode_u64(x)), Some(x));
        assert_eq!(KeyCodec::decode_counter(&KeyCodec::encode_counter(x)), Ok(x));
        assert_eq!(
            KeyCodec::decode_tombstone_size(&KeyCodec::encode_tombstone_size(x)),
            Ok(x)
        );
        assert_eq!(
            KeyCodec::decode_dir_entry(&KeyCodec::encode_dir_entry(x, y)),
            Ok((x, y))
        );
        assert_eq!(KeyCodec::decode_segcount(&KeyCodec::encode_segcount(x, y)), Some((x, y)));
        let last_shipped = ShipSeqno::new(y);
        let stamp = HaStamp::new(
            WriterEpoch::new(x).unwrap(),
            last_shipped,
            SoloHistory::ever(x),
            last_shipped,
        )
        .unwrap();
        assert_eq!(
            KeyCodec::decode_ha_stamp(&KeyCodec::encode_ha_stamp(&stamp)),
            Some(stamp)
        );
    }
}

#[test]
fn values_have_the_documented_bytes() {
    assert_eq!(KeyCodec::encode_u64(0x0102).as_ref(), &[2, 1, 0, 0, 0, 0, 0, 0]);
    assert_eq!(
        KeyCodec::encode_flush_time(3, 4).as_ref(),
        &[1, 3, 0, 0, 0, 0, 0, 0, 0, 4, 0, 0, 0]
    );
    assert_eq!(
        KeyCodec::encode_segcount(1, 2).as_ref(),
        &[1, 0, 0, 0, 0, 0, 0, 0, 2, 0, 0, 0, 0, 0, 0, 0]
    );
    // A value with the live bytes alone counts the whole segment as live.
    assert_eq!(KeyCodec::decode_segcount(&9u64.to_le_bytes()), Some((9, 9)));
    assert_eq!(KeyCodec::decode_segcount(&[0; 9]), None);
    // Trailing bytes of a directory entry are not read.
    assert_eq!(
        KeyCodec::decode_dir_entry(&[1, 0, 0, 0, 0, 0, 0, 0, 2, 0, 0, 0, 0, 0, 0, 0, 99]),
        Ok((1, 2))
    );
}

#[test]
fn short_values_are_invalid_data() {
    assert_eq!(KeyCodec::decode_counter(&[1, 2]), Err(FsError::InvalidData));
    assert_eq!(KeyCodec::decode_tombstone_size(&[]), Err(FsError::InvalidData));
    assert_eq!(KeyCodec::decode_dir_entry(&[0; 15]), Err(FsError::InvalidData));
    assert_eq!(KeyCodec::decode_u64(&[0; 7]), None);
}

#[test]
fn prefix_range_isolates_extents() {
    let codec = KeyCodec::new();
    let (start, end) = codec.prefix_range(KeyPrefix::Extent);
    for (ino, idx) in [(0u64, 0u64), (7, 9), (u64::MAX, u64::MAX)] {
        let extent = codec.extent_key(ino, idx);
        assert!(extent.as_ref() >= start.as_ref() && extent.as_ref() < end.as_ref());
        let meta = codec.tombstone_key(idx, ino);
        assert!(!(meta.as_ref() >= start.as_ref() && meta.as_ref() < end.as_ref()));
    }
}

#[test]
fn a_huge_root_id_falls_into_a_branch_slice() {
    // Four high bytes of a root id are told from a branch id only as long as
    // they are zero.
    let root = KeyCodec::new();
    let branch = KeyCodec::for_branch(BranchId(1));
    let (start, end) = branch.prefix_range(KeyPrefix::Inode);
    let key = root.inode_key(1 << 32);
    assert!(key.as_ref() >= start.as_ref() && key.as_ref() < end.as_ref());
}

#[test]
fn kinds_and_bytes_correspond() {
    for byte in 0u8..=255 {
        match KeyPrefix::try_from(byte) {
            Ok(kind) => assert_eq!(u8::from(kind), byte),
            Err(()) => assert!(byte == 0 || (byte > 0x0E && byte != 0xFE)),
        }
    }
    assert_eq!(KeyPrefix::SegCount.as_str(), "SEGCOUNT");
    assert_eq!(KeyPrefix::BranchTombstone.as_str(), "BRANCH_TOMBSTONE");
}

#[test]
fn kinds_stay_in_their_domain() {
    let codec = KeyCodec::new();
    assert_eq!(codec.peek_kind(b"extent\xfe"), Some(KeyPrefix::Extent));
    assert_eq!(codec.peek_kind(b"extent\x01"), None);
    assert_eq!(codec.peek_kind(b"meta\xfe"), None);
    assert_eq!(codec.peek_kind(b"meta\x0e"), Some(KeyPrefix::Branch));
    assert_eq!(codec.peek_kind(b"meta"), None);
    assert_eq!(codec.domain_len(KeyPrefix::Extent), 6);
    assert_eq!(codec.domain_len(KeyPrefix::Inode), 4);
    assert_eq!(codec.tombstone_key_size(), codec.tombstone_key(1, 2).len());
    assert_eq!(codec.orphan_key_size(), codec.orphan_key(1).len());
}
