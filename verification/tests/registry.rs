//! Branch registry, records, and the drop of a branch's data.

use bytes::Bytes;
use serde_json::Value;
use std::collections::BTreeMap;
use zerofs::branch::{
    created_branch_ops, delete_branch_data_ranges, delete_branch_ops, parse_registry_row,
    BranchRecord, CreateBranch, CreateBranchError, RangeDrop, RegistryRowError, RootBranchRefused,
    DELETE_BATCH_KEYS,
};
use zerofs::fork_info::{ForkAncestor, ForkInfo};
use zerofs::key_codec::{BranchId, KeyCodec};
use zerofs::record::{frame_record, unframe_record, RecordError, RECORD_VERSION};
use zerofs::transaction::TxOp;

type Store = BTreeMap<Vec<u8>, Bytes>;

fn record_json(record: &BranchRecord) -> Vec<u8> {
    let mut map = serde_json::Map::new();
    map.insert("id".to_string(), Value::from(record.id));
    map.insert("created_at".to_string(), Value::from(record.created_at));
    serde_json::to_vec(&Value::Object(map)).unwrap()
}

fn record_of(json: &[u8]) -> BranchRecord {
    let value: Value = serde_json::from_slice(json).unwrap();
    BranchRecord {
        id: value["id"].as_u64().unwrap() as u32,
        created_at: value["created_at"].as_u64().unwrap(),
    }
}

#[test]
fn branch_record_encoding_round_trips_and_checks_version() {
    let record = BranchRecord {
        id: 7,
        created_at: 1_700_000_000,
    };
    let encoded = BranchRecord::encode(&record_json(&record));
    assert_eq!(record_of(BranchRecord::decode(&encoded).unwrap()), record);

    assert!(BranchRecord::decode(&[]).is_err(), "empty record rejected");
    let mut future = encoded.to_vec();
    future[0] = RECORD_VERSION + 1;
    assert!(
        BranchRecord::decode(&future).is_err(),
        "unknown version rejected"
    );
    assert!(
        BranchRecord::decode(&encoded[..1]).is_err(),
        "version byte without payload rejected"
    );
}

#[test]
fn fork_record_encoding_round_trips_and_checks_version() {
    let info = ForkInfo {
        name: "agent-1".to_string(),
        parent_db_path: "vol".to_string(),
        base_epoch: 4,
        created_at: 1_700_000_000,
        ancestors: vec![ForkAncestor {
            db_path: "vol".to_string(),
            base_epoch: 0,
        }],
    };
    let mut ancestor = serde_json::Map::new();
    ancestor.insert("db_path".to_string(), Value::from(info.ancestors[0].db_path.clone()));
    ancestor.insert("base_epoch".to_string(), Value::from(info.ancestors[0].base_epoch));
    let mut map = serde_json::Map::new();
    map.insert("name".to_string(), Value::from(info.name.clone()));
    map.insert("parent_db_path".to_string(), Value::from(info.parent_db_path.clone()));
    map.insert("base_epoch".to_string(), Value::from(info.base_epoch));
    map.insert("created_at".to_string(), Value::from(info.created_at));
    map.insert("ancestors".to_string(), Value::from(vec![Value::Object(ancestor)]));
    let encoded = ForkInfo::encode(&serde_json::to_vec(&Value::Object(map)).unwrap());

    let loaded: Value = serde_json::from_slice(ForkInfo::decode(&encoded).unwrap()).unwrap();
    assert_eq!(loaded["name"], "agent-1");
    assert_eq!(loaded["base_epoch"], 4);
    assert_eq!(loaded["ancestors"].as_array().unwrap().len(), 1);

    assert!(ForkInfo::decode(&[]).is_err(), "empty record rejected");
    let mut future = encoded.to_vec();
    future[0] = RECORD_VERSION + 1;
    assert!(
        ForkInfo::decode(&future).is_err(),
        "unknown version rejected"
    );
}

#[test]
fn records_are_a_version_byte_and_a_payload() {
    assert_eq!(frame_record(b"{}").as_ref(), b"\x01{}");
    assert_eq!(unframe_record(b"\x01{}"), Ok(b"{}".as_slice()));
    assert_eq!(unframe_record(b""), Err(RecordError::Empty));
    assert_eq!(unframe_record(b"\x01"), Err(RecordError::NoPayload));
    assert_eq!(unframe_record(b"\x02{}"), Err(RecordError::UnsupportedVersion(2)));
}

fn write(store: &mut Store, ops: Vec<TxOp>) {
    for op in ops {
        match op {
            TxOp::Put(key, value) => {
                store.insert(key.to_vec(), value);
            }
            TxOp::Delete(key) => {
                store.remove(key.as_ref());
            }
        }
    }
}

fn create(store: &mut Store, name: &str) -> Result<u32, CreateBranchError> {
    let mut create = CreateBranch::begin(name);
    while let Some(key) = create.wanted() {
        create = create.answer(store.get(key.as_ref()).cloned());
    }
    match create {
        CreateBranch::Allocated { id, registry_key } => {
            let json = record_json(&BranchRecord { id, created_at: 1 });
            write(store, created_branch_ops(id, registry_key, &json));
            Ok(id)
        }
        CreateBranch::Refused { error } => Err(error),
        _ => unreachable!(),
    }
}

fn remove(store: &mut Store, name: &str) -> bool {
    let registered = store.contains_key(KeyCodec::new().branch_registry_key(name).as_ref());
    write(store, delete_branch_ops(name, registered));
    registered
}

fn list(store: &Store) -> Vec<(String, u32)> {
    let prefix = KeyCodec::new().branch_registry_prefix();
    store
        .iter()
        .filter(|(k, _)| k.starts_with(&prefix))
        .map(|(k, v)| {
            let (name, json) = parse_registry_row(k, v).unwrap();
            (name.to_string(), record_of(json).id)
        })
        .collect()
}

#[test]
fn registry_create_list_delete_with_unique_ids() {
    let mut store = Store::new();
    assert_eq!(create(&mut store, "alpha"), Ok(1));
    assert_eq!(create(&mut store, "beta"), Ok(2));
    assert_eq!(create(&mut store, "alpha"), Err(CreateBranchError::AlreadyExists));
    assert_eq!(create(&mut store, ""), Err(CreateBranchError::EmptyName));
    assert_eq!(list(&store), [("alpha".to_string(), 1), ("beta".to_string(), 2)]);

    assert!(remove(&mut store, "alpha"));
    assert!(!remove(&mut store, "alpha"));
    assert!(!remove(&mut store, "missing"));
    assert_eq!(create(&mut store, "alpha"), Ok(3));
    assert_eq!(list(&store), [("alpha".to_string(), 3), ("beta".to_string(), 2)]);
}

#[test]
fn ids_increase_over_any_history() {
    let mut store = Store::new();
    let mut ids = Vec::new();
    for name in ["a", "b", "a", "-a", "-b", "a", "-missing", "b", "", "-a", "c"] {
        match name.strip_prefix('-') {
            Some(name) => {
                remove(&mut store, name);
            }
            None => ids.extend(create(&mut store, name).ok()),
        }
        if let Some(id) = ids.last() {
            drop_branch(&mut store, BranchId(*id));
        }
    }
    assert_eq!(ids, [1, 2, 3, 4, 5]);
}

#[test]
fn the_id_space_ends_at_its_largest_id() {
    let mut store = Store::new();
    let counter = KeyCodec::new().branch_counter_key();
    let last = u64::from(u32::MAX) - 1;
    store.insert(counter.to_vec(), KeyCodec::encode_u64(last));
    assert_eq!(create(&mut store, "last"), Ok(u32::MAX));
    assert_eq!(create(&mut store, "none"), Err(CreateBranchError::IdsExhausted));
    store.insert(counter.to_vec(), KeyCodec::encode_u64(u64::MAX));
    assert_eq!(create(&mut store, "none"), Err(CreateBranchError::IdsExhausted));
    store.insert(counter.to_vec(), Bytes::from_static(b"short"));
    assert_eq!(create(&mut store, "none"), Err(CreateBranchError::CorruptCounter));
}

#[test]
fn registry_rows_are_checked() {
    let codec = KeyCodec::new();
    let key = codec.branch_registry_key("\u{e4}-1");
    assert_eq!(key.as_ref(), b"meta\x0e\xc3\xa4-1");
    assert_eq!(parse_registry_row(&key, b"\x01{}"), Ok(("\u{e4}-1", b"{}".as_slice())));
    assert_eq!(
        parse_registry_row(b"meta\x0e\xff\xfe", b"\x01{}"),
        Err(RegistryRowError::NameNotUtf8)
    );
    assert_eq!(
        parse_registry_row(&key, b"\x09{}"),
        Err(RegistryRowError::Record(RecordError::UnsupportedVersion(9)))
    );
}

#[test]
fn delete_branch_data_drops_exactly_the_branchs_keys() {
    let root = KeyCodec::new();
    let victim = KeyCodec::for_branch(BranchId(1));
    let sibling = KeyCodec::for_branch(BranchId(2));
    let victim_keys: Vec<Bytes> = vec![
        victim.inode_key(7).into(),
        victim.dir_entry_key(1, b"file"),
        victim.dir_cookie_counter_key(1),
        victim.tombstone_key(9, 7),
        victim.orphan_key(7),
        victim.segcount_key(3, 4),
        victim.extent_key(7, 0).into(),
        victim.branch_tombstone_key(victim.inode_key(7).as_ref()).unwrap(),
    ];
    let keep_keys: Vec<Bytes> = vec![
        root.inode_key(7).into(),
        root.segcount_key(3, 4),
        root.extent_key(7, 0).into(),
        sibling.inode_key(7).into(),
        sibling.segcount_key(3, 4),
        sibling.branch_tombstone_key(sibling.inode_key(7).as_ref()).unwrap(),
        root.branch_registry_key("victim"),
        root.branch_counter_key(),
    ];
    let ranges = delete_branch_data_ranges(BranchId(1)).unwrap();
    let dropped = |key: &Bytes| ranges.iter().any(|(start, end)| key >= start && key < end);
    assert!(victim_keys.iter().all(dropped));
    assert!(!keep_keys.iter().any(dropped));
    assert_eq!(ranges.len(), 8);

    assert_eq!(delete_branch_data_ranges(BranchId::root()), Err(RootBranchRefused));

    // A second drop finds nothing.
    let mut store: Store = victim_keys
        .iter()
        .chain(&keep_keys)
        .map(|key| (key.to_vec(), Bytes::from_static(b"v")))
        .collect();
    assert_eq!(drop_branch(&mut store, BranchId(1)), victim_keys.len() as u64);
    assert_eq!(store.len(), keep_keys.len());
    assert!(keep_keys.iter().all(|key| store.contains_key(key.as_ref())));
    assert_eq!(drop_branch(&mut store, BranchId(1)), 0);
    assert_eq!(store.len(), keep_keys.len());
}

fn drop_branch(store: &mut Store, id: BranchId) -> u64 {
    let mut drop = RangeDrop::new();
    for (start, end) in delete_branch_data_ranges(id).unwrap() {
        let found: Vec<Vec<u8>> =
            store.range(start.to_vec()..end.to_vec()).map(|(key, _)| key.clone()).collect();
        for key in found {
            for full in drop.push(Bytes::from(key)).unwrap_or_default() {
                store.remove(full.as_ref());
            }
        }
        for rest in drop.finish_range().unwrap_or_default() {
            store.remove(rest.as_ref());
        }
    }
    drop.deleted()
}

#[test]
fn ranges_are_dropped_in_bounded_batches() {
    let mut drop = RangeDrop::new();
    assert!(drop.finish_range().is_none());
    let mut committed = 0;
    for i in 0..(DELETE_BATCH_KEYS + 3) {
        if let Some(batch) = drop.push(Bytes::from(vec![i as u8])) {
            assert_eq!(batch.len(), DELETE_BATCH_KEYS);
            committed += batch.len();
        }
    }
    let rest = drop.finish_range().unwrap();
    assert_eq!(rest.len(), 3);
    assert_eq!(committed + rest.len(), DELETE_BATCH_KEYS + 3);
    assert_eq!(drop.deleted(), (DELETE_BATCH_KEYS + 3) as u64);
    assert!(drop.finish_range().is_none());
}
