//! Forks: names, branch points, creation, listing, deletion and routing.

use object_store::path::Path;
use std::collections::{BTreeMap, BTreeSet};
use zerofs::cli::{branch_row, fork_row, parse_at};
use zerofs::fork_create::CreateFork;
use zerofs::fork_delete::{begin_delete, parent_pins, DeleteStep, ExternalDb};
use zerofs::fork_info::{ForkAncestor, ForkInfo, FORKS_INFIX};
use zerofs::fork_list::sort_forks;
use zerofs::fork_manager::{
    branch_from, children_prefix, find_checkpoint, manifest_prefix, validate_fork_name,
    BranchFrom, CheckpointEntry, ForkError, PendingFork, ResolveBranchPoint,
    PENDING_FORK_FILENAME,
};
use zerofs::fork_materialize::{database_steps, materialize_steps, MaterializeStep, OpenPhase};
use zerofs::key_codec::KeyCodec;
use zerofs::point_in_time::{parse_manifest_id, ManifestLookup};
use zerofs::segment_path_router::SegmentPathRouter;

fn info(name: &str, created_at: u64) -> ForkInfo {
    ForkInfo {
        name: name.to_string(),
        parent_db_path: "vol".to_string(),
        base_epoch: 2,
        created_at,
        ancestors: vec![ForkAncestor { db_path: "vol".to_string(), base_epoch: 0 }],
    }
}

#[test]
fn fork_names_are_plain() {
    for name in ["f1", "agent-1", "a_b.c", "Z9"] {
        assert_eq!(validate_fork_name(name), Ok(()));
    }
    assert_eq!(validate_fork_name(""), Err(ForkError::NameEmpty));
    for name in ["a/b", "a b", "\u{e4}", "x\n"] {
        assert_eq!(validate_fork_name(name), Err(ForkError::NameInvalid));
    }
}

#[test]
fn fork_paths_lie_under_the_parent() {
    assert_eq!(FORKS_INFIX, "forks");
    assert_eq!(ForkInfo::db_path("vol", "f1"), "vol/forks/f1");
    assert_eq!(children_prefix("vol/forks/f1"), "vol/forks/f1/forks");
    assert_eq!(manifest_prefix("vol"), "vol/manifest");
    assert_eq!(
        PendingFork::path(&Path::from("vol/forks/f1")),
        Path::from(format!("vol/forks/f1/{PENDING_FORK_FILENAME}"))
    );
}

#[test]
fn a_time_wins_over_a_checkpoint() {
    assert!(matches!(
        branch_from(Some("cp"), Some((5, 6))),
        BranchFrom::AtTime { secs: 5, nanos: 6 }
    ));
    assert!(matches!(
        branch_from(Some("\u{3000} cp\t"), None),
        BranchFrom::Named { checkpoint_name } if checkpoint_name == "cp"
    ));
    assert!(matches!(branch_from(Some(" \u{2003}"), None), BranchFrom::Fresh));
    assert!(matches!(branch_from(None, None), BranchFrom::Fresh));
}

#[test]
fn a_fresh_branch_point_is_owned() {
    let step = ResolveBranchPoint::begin("f1", BranchFrom::Fresh, true);
    let name = match &step {
        ResolveBranchPoint::CreateCheckpoint { checkpoint_name, barrier: true } => {
            checkpoint_name.clone()
        }
        _ => panic!("a checkpoint under the barrier"),
    };
    let unique = name.strip_prefix("fork-f1-").unwrap();
    assert_eq!(unique.len(), 32);
    assert!(unique.chars().all(|c| c.is_ascii_hexdigit() && !c.is_ascii_uppercase()));
    let again = ResolveBranchPoint::begin("f1", BranchFrom::Fresh, true);
    assert!(matches!(
        again,
        ResolveBranchPoint::CreateCheckpoint { checkpoint_name, .. } if checkpoint_name != name
    ));

    let list = vec![
        CheckpointEntry { id: 1, manifest_id: 10 },
        CheckpointEntry { id: 2, manifest_id: 20 },
    ];
    let step = step.checkpoint_made(2).listed(&list);
    match step {
        ResolveBranchPoint::ReadManifest { manifest_id: 20, checkpoint_id: 2, owned: true, .. } => {}
        _ => panic!("the manifest that the checkpoint pins"),
    }
    let gone = ResolveBranchPoint::begin("f1", BranchFrom::Fresh, false)
        .checkpoint_made(3)
        .listed(&list);
    assert!(matches!(
        gone,
        ResolveBranchPoint::Refused { error: ForkError::CheckpointGone }
    ));
    assert_eq!(find_checkpoint(&list, 1), Some(10));
    assert_eq!(find_checkpoint(&list, 9), None);
}

#[test]
fn a_named_branch_point_is_the_users() {
    let named = || BranchFrom::Named { checkpoint_name: "cp".to_string() };
    let missing = ResolveBranchPoint::begin("f1", named(), false).named_found(None);
    assert!(matches!(
        missing,
        ResolveBranchPoint::Refused { error: ForkError::CheckpointNotFound }
    ));
    let step = ResolveBranchPoint::begin("f1", named(), false)
        .named_found(Some(7))
        .listed(&vec![CheckpointEntry { id: 7, manifest_id: 3 }])
        .manifest_read(Some(1));
    match step {
        ResolveBranchPoint::Resolved { point } => {
            assert_eq!(point.checkpoint_id, 7);
            assert_eq!(point.checkpoint_name, "cp");
            assert_eq!(point.base_epoch, 2);
            assert!(!point.owned);
        }
        _ => panic!("resolved"),
    }
}

#[test]
fn a_point_in_time_is_pinned_under_its_second() {
    let at = BranchFrom::AtTime { secs: -5, nanos: 1 };
    let step = ResolveBranchPoint::begin_named("f1", at, false, "unused").manifest_found(Some(9));
    match &step {
        ResolveBranchPoint::PinManifest { checkpoint_name, manifest_id: 9 } => {
            assert_eq!(checkpoint_name, "pitr-f1--5")
        }
        _ => panic!("pin the manifest"),
    }
    let step = step.checkpoint_made(4);
    assert!(matches!(
        step,
        ResolveBranchPoint::ReadManifest { manifest_id: 9, checkpoint_id: 4, owned: true, .. }
    ));
    assert!(matches!(
        step.manifest_read(None),
        ResolveBranchPoint::Refused { error: ForkError::ManifestNotFound }
    ));
    let at = BranchFrom::AtTime { secs: 1_700_000_000, nanos: 0 };
    let step = ResolveBranchPoint::begin("f1", at, false).manifest_found(None);
    assert!(matches!(
        step,
        ResolveBranchPoint::Refused { error: ForkError::NoManifestAtTime }
    ));
}

fn create_to_lineage(barrier: bool) -> CreateFork {
    let create = CreateFork::begin(" f2 ", false, "vol/forks/f1", None, None, barrier);
    match &create {
        CreateFork::Registry { request, registry_key } => {
            assert_eq!(request.name, "f2");
            assert_eq!(*registry_key, KeyCodec::new().fork_registry_key("f2"));
        }
        _ => panic!("read the registry first"),
    }
    let point = match ResolveBranchPoint::begin_named("f2", BranchFrom::Fresh, barrier, "u")
        .checkpoint_made(8)
        .listed(&vec![CheckpointEntry { id: 8, manifest_id: 1 }])
        .manifest_read(Some(3))
    {
        ResolveBranchPoint::Resolved { point } => point,
        _ => panic!("resolved"),
    };
    let create = create.registry_read(false);
    assert!(matches!(
        create.begin_branch_point(),
        ResolveBranchPoint::CreateCheckpoint { barrier: b, .. } if b == barrier
    ));
    create.branch_point_resolved(point)
}

#[test]
fn a_lazy_fork_writes_its_marker_before_its_registry_entry() {
    let parent = info("f1", 1);
    let step = create_to_lineage(false).lineage_read(Some(&parent), 99);
    match &step {
        CreateFork::WriteMarker { pending, .. } => {
            assert_eq!(pending.fork_info.name, "f2");
            assert_eq!(pending.fork_info.parent_db_path, "vol/forks/f1");
            assert_eq!(pending.fork_info.base_epoch, 4);
            assert_eq!(pending.fork_info.created_at, 99);
            assert_eq!(pending.fork_info.ancestors.len(), 2);
            assert_eq!(pending.fork_info.ancestors[1].db_path, "vol/forks/f1");
            assert_eq!(pending.fork_info.ancestors[1].base_epoch, 2);
            assert_eq!(pending.source_checkpoint_id, 8);
            assert_eq!(pending.source_checkpoint_name, "fork-f2-u");
            assert!(pending.source_checkpoint_owned);
        }
        _ => panic!("write the marker"),
    }
    let step = step.published();
    assert!(matches!(&step, CreateFork::Register { info, .. } if info.name == "f2"));
    assert!(matches!(step.registered(), CreateFork::Done { info } if info.base_epoch == 4));
}

#[test]
fn an_eager_fork_is_materialized_before_its_registry_entry() {
    let step = create_to_lineage(true).lineage_read(None, 5);
    match &step {
        CreateFork::Materialize { info, checkpoint_id: 8, .. } => {
            assert_eq!(info.ancestors.len(), 1);
            assert_eq!(info.ancestors[0].base_epoch, 0);
        }
        _ => panic!("materialize"),
    }
    assert!(matches!(step.published(), CreateFork::Register { .. }));
}

#[test]
fn bad_requests_are_refused_before_anything_is_read() {
    let refused = |name: &str, read_only: bool| match CreateFork::begin(
        name, read_only, "vol", None, None, false,
    ) {
        CreateFork::Refused { error } => Some(error),
        _ => None,
    };
    assert_eq!(refused("  ", true), Some(ForkError::NameEmpty));
    assert_eq!(refused("a/b", true), Some(ForkError::NameInvalid));
    assert_eq!(refused("f1", true), Some(ForkError::ReadOnly));
    assert_eq!(refused("f1", false), None);
    assert!(matches!(
        CreateFork::begin("f1", false, "vol", None, None, false).registry_read(true),
        CreateFork::Refused { error: ForkError::AlreadyExists }
    ));
    assert_eq!(begin_delete("", false, "vol").err(), Some(ForkError::NameEmpty));
    assert_eq!(begin_delete("f1", true, "vol").err(), Some(ForkError::ReadOnly));
    let delete = begin_delete("\tf1\n", false, "vol").ok().unwrap();
    assert_eq!(delete.name, "f1");
    assert_eq!(delete.fork_db_path, "vol/forks/f1");
    assert_eq!(delete.home().as_ref(), "vol/forks/f1");
    assert_eq!(delete.children().as_ref(), "vol/forks/f1/forks");
    assert_eq!(delete.marker().as_ref(), "vol/forks/f1/.zerofs_fork_pending.json");
    assert_eq!(delete.registry_key, KeyCodec::new().fork_registry_key("f1"));
}

#[test]
fn materialization_deletes_the_marker_last() {
    let pending = pending_fork();
    let opened = Path::from("vol/forks/f1");
    assert_eq!(pending.marker(), PendingFork::path(&opened));
    let first_open = script(&materialize_steps(OpenPhase::FirstOpen, &opened, Some(&pending)));
    assert_eq!(
        first_open,
        [
            "clone vol@8 to vol/forks/f1",
            "key vol to vol/forks/f1",
            "lineage f1 epoch 4 in vol/forks/f1",
            "flush vol/forks/f1",
            "close vol/forks/f1",
            "delete vol/forks/f1/.zerofs_fork_pending.json",
        ]
    );
    assert_eq!(script(&database_steps(&pending.fork_info, 8)), first_open[..5]);
}

#[test]
fn a_pending_fork_is_built_by_its_first_open_alone() {
    let opened = Path::from("vol");
    assert!(materialize_steps(OpenPhase::FirstOpen, &opened, None).is_empty());
    assert!(materialize_steps(OpenPhase::BeforeKeyLoad, &opened, None).is_empty());
    let mut volumes = Volumes {
        keys: BTreeMap::from([("vol".to_string(), b"wrapped".to_vec())]),
        lineage: BTreeMap::new(),
        markers: BTreeSet::from(["vol/forks/f1/.zerofs_fork_pending.json".to_string()]),
    };
    let opened = Path::from("vol/forks/f1");
    assert!(volumes.open(OpenPhase::FirstOpen, &opened), "first call materializes");
    assert_eq!(volumes.lineage["vol/forks/f1"], ("f1".to_string(), 4));
    assert_eq!(volumes.keys["vol/forks/f1"], b"wrapped");
    assert!(volumes.markers.is_empty());
    assert!(!volumes.open(OpenPhase::FirstOpen, &opened), "already materialized: no-op");
}

#[test]
fn the_parents_key_is_in_place_before_the_key_load() {
    let mut volumes = Volumes {
        keys: BTreeMap::from([("vol".to_string(), b"wrapped".to_vec())]),
        lineage: BTreeMap::new(),
        markers: BTreeSet::from(["mounted/here/.zerofs_fork_pending.json".to_string()]),
    };
    // The key goes to the path that is opened.
    let opened = Path::from("mounted/here");
    for _ in 0..2 {
        assert!(volumes.open(OpenPhase::BeforeKeyLoad, &opened));
        assert_eq!(volumes.keys["mounted/here"], volumes.keys["vol"]);
        assert_eq!(volumes.keys.len(), 2);
        assert_eq!(volumes.markers.len(), 1);
        assert!(volumes.lineage.is_empty());
    }
    // So does the deletion of the marker.
    assert!(volumes.open(OpenPhase::FirstOpen, &opened));
    assert!(volumes.markers.is_empty());
}

#[test]
fn base_epochs_ascend_from_fork_to_fork() {
    let mut parent: Option<ForkInfo> = None;
    let mut path = "vol".to_string();
    for (name, base_epoch) in [("a", 2), ("b", 3), ("c", 7)] {
        let ancestors = ForkInfo::child_ancestors(parent.as_ref(), &path);
        let mut epochs: Vec<u64> = ancestors.iter().map(|a| a.base_epoch).collect();
        epochs.push(base_epoch);
        assert!(epochs.windows(2).all(|pair| pair[0] < pair[1]), "{epochs:?}");
        let child = ForkInfo {
            name: name.to_string(),
            parent_db_path: path.clone(),
            base_epoch,
            created_at: 0,
            ancestors,
        };
        path = ForkInfo::db_path(&path, name);
        assert_eq!(child.copy().ancestors.len(), child.ancestors.len());
        parent = Some(child);
    }
    let last = parent.unwrap();
    let router = SegmentPathRouter::new(Path::from(path), Some(&last));
    assert_eq!(router.owner_prefix(2), &Path::from("vol/forks/a"));
    assert_eq!(router.owner_prefix(6), &Path::from("vol/forks/a/forks/b"));
    assert_eq!(router.owner_prefix(7), &Path::from("vol/forks/a/forks/b/forks/c"));
}

fn pending_fork() -> PendingFork {
    PendingFork {
        fork_info: ForkInfo {
            name: "f1".to_string(),
            parent_db_path: "vol".to_string(),
            base_epoch: 4,
            created_at: 5,
            ancestors: vec![ForkAncestor { db_path: "vol".to_string(), base_epoch: 0 }],
        },
        source_checkpoint_id: 8,
        source_checkpoint_name: "fork-f1-u".to_string(),
        source_checkpoint_owned: true,
    }
}

struct Volumes {
    keys: BTreeMap<String, Vec<u8>>,
    lineage: BTreeMap<String, (String, u64)>,
    markers: BTreeSet<String>,
}

impl Volumes {
    fn open(&mut self, phase: OpenPhase, opened: &Path) -> bool {
        let pending = if self.markers.contains(PendingFork::path(opened).as_ref()) {
            Some(pending_fork())
        } else {
            None
        };
        let steps = materialize_steps(phase, opened, pending.as_ref());
        let pending = !steps.is_empty();
        for step in steps {
            match step {
                MaterializeStep::CopyKey { from, to } => {
                    let key = self.keys[from.as_ref()].clone();
                    self.keys.insert(to.to_string(), key);
                }
                MaterializeStep::SaveLineage { db_path, info } => {
                    self.lineage.insert(db_path.to_string(), (info.name, info.base_epoch));
                }
                MaterializeStep::DeleteMarker { marker } => {
                    assert!(self.markers.remove(marker.as_ref()));
                }
                _ => {}
            }
        }
        pending
    }
}

fn script(steps: &[MaterializeStep]) -> Vec<String> {
    steps
        .iter()
        .map(|step| match step {
            MaterializeStep::CloneDatabase { from, checkpoint_id, to } => {
                format!("clone {from}@{checkpoint_id} to {to}")
            }
            MaterializeStep::CopyKey { from, to } => format!("key {from} to {to}"),
            MaterializeStep::SaveLineage { db_path, info } => {
                format!("lineage {} epoch {} in {db_path}", info.name, info.base_epoch)
            }
            MaterializeStep::Flush { db_path } => format!("flush {db_path}"),
            MaterializeStep::Close { db_path } => format!("close {db_path}"),
            MaterializeStep::DeleteMarker { marker } => format!("delete {marker}"),
        })
        .collect()
}

fn delete_script(
    registered: bool,
    children: bool,
    pending: Option<(u128, bool)>,
) -> Vec<DeleteStep> {
    let mut step = DeleteStep::Registry;
    let mut script = vec![step];
    loop {
        step = match step {
            DeleteStep::Registry => step.registry_read(registered),
            DeleteStep::Children => step.children_listed(children),
            DeleteStep::Marker => step.marker_read(pending),
            DeleteStep::Done | DeleteStep::Refused(_) => return script,
            _ => step.deleted(),
        };
        script.push(step);
    }
}

#[test]
fn delete_unregisters_last() {
    let reads = [DeleteStep::Registry, DeleteStep::Children, DeleteStep::Marker];
    let tail = |steps: &[DeleteStep]| [&reads[..], steps].concat();
    assert_eq!(
        delete_script(true, false, None),
        tail(&[
            DeleteStep::ParentPin { pending: false },
            DeleteStep::Database,
            DeleteStep::Objects,
            DeleteStep::Unregister,
            DeleteStep::Done,
        ])
    );
    // A pending fork has no database, and takes its own checkpoint along.
    assert_eq!(
        delete_script(true, false, Some((5, true))),
        tail(&[
            DeleteStep::SourceCheckpoint { checkpoint_id: 5 },
            DeleteStep::ParentPin { pending: true },
            DeleteStep::Objects,
            DeleteStep::Unregister,
            DeleteStep::Done,
        ])
    );
    // A checkpoint that the user named stays.
    assert_eq!(
        delete_script(true, false, Some((5, false))),
        tail(&[
            DeleteStep::ParentPin { pending: true },
            DeleteStep::Objects,
            DeleteStep::Unregister,
            DeleteStep::Done,
        ])
    );
}

#[test]
fn delete_refuses_unknown_forks_and_forks_with_children() {
    assert_eq!(
        delete_script(false, false, None),
        vec![DeleteStep::Registry, DeleteStep::Refused(ForkError::NotFound)]
    );
    assert_eq!(
        delete_script(true, true, Some((1, true))),
        vec![
            DeleteStep::Registry,
            DeleteStep::Children,
            DeleteStep::Refused(ForkError::HasChildren)
        ]
    );
}

#[test]
fn only_pins_on_the_parent_are_released() {
    let db = |path: &str, pin: Option<u128>| ExternalDb {
        path: path.to_string(),
        final_checkpoint_id: pin,
    };
    let external = vec![
        db("vol", Some(1)),
        db("vol2", Some(2)),
        db("vol", None),
        db("vol", Some(3)),
    ];
    assert_eq!(parent_pins(&external, "vol"), vec![1, 3]);
    assert!(parent_pins(&external, "other").is_empty());
}

#[test]
fn forks_are_listed_by_time_and_name() {
    let sorted = sort_forks(vec![
        info("b", 5),
        info("a", 9),
        info("f12", 5),
        info("f1", 5),
        info("z", 1),
    ]);
    let names: Vec<&str> = sorted.iter().map(|f| f.name.as_str()).collect();
    assert_eq!(names, ["z", "b", "f1", "f12", "a"]);
}

#[test]
fn manifests_are_named_by_number() {
    assert_eq!(
        parse_manifest_id(&Path::from("vol/manifest/00000000000000000042.manifest")),
        Some(42)
    );
    assert_eq!(parse_manifest_id(&Path::from("18446744073709551615.manifest")), Some(u64::MAX));
    assert_eq!(parse_manifest_id(&Path::from("18446744073709551616.manifest")), None);
    assert_eq!(parse_manifest_id(&Path::from("vol/manifest/+7.manifest")), Some(7));
    assert_eq!(parse_manifest_id(&Path::from("vol/manifest/x.manifest")), None);
    assert_eq!(parse_manifest_id(&Path::from("vol/manifest/.manifest")), None);
    assert_eq!(parse_manifest_id(&Path::from("vol/manifest/7.compactions")), None);
    assert_eq!(parse_manifest_id(&Path::from("")), None);
}

#[test]
fn the_flush_time_index_answers_first() {
    let codec = KeyCodec::new();
    let rows = [(1u64, 10u64, 0u32), (3, 20, 5), (2, 15, 0), (4, 20, 6)];
    let mut search = match ManifestLookup::begin((20, 5)) {
        ManifestLookup::Index(search) => search,
        _ => panic!("index first"),
    };
    for (id, secs, nanos) in rows {
        search.observe_index_row(
            &codec.flush_time_key(id),
            &KeyCodec::encode_flush_time(secs, nanos),
        );
    }
    search.observe_index_row(b"meta\x0cshort", &KeyCodec::encode_flush_time(1, 1));
    search.observe_index_row(&codec.flush_time_key(99), b"\x02garbage");
    assert_eq!(search.found(), Some(3));
    assert!(matches!(
        ManifestLookup::Index(search).scanned(),
        ManifestLookup::Found(3)
    ));
}

#[test]
fn the_listing_answers_where_the_index_cannot() {
    let codec = KeyCodec::new();
    let mut search = match ManifestLookup::begin((-1, 999)) {
        ManifestLookup::Index(search) => search,
        _ => panic!("index first"),
    };
    // A target before the epoch matches no index row.
    search.observe_index_row(&codec.flush_time_key(1), &KeyCodec::encode_flush_time(0, 0));
    assert_eq!(search.found(), None);
    let mut search = match ManifestLookup::Index(search).scanned() {
        ManifestLookup::Listing(search) => search,
        _ => panic!("then the listing"),
    };
    let object = |id: u64| Path::from(format!("vol/manifest/{id:020}.manifest"));
    search.observe_listed(&object(2), (-1, 999));
    search.observe_listed(&object(5), (-1, 1000));
    search.observe_listed(&object(1), (-7, 0));
    search.observe_listed(&Path::from("vol/manifest/current"), (-9, 0));
    assert!(matches!(
        ManifestLookup::Listing(search).scanned(),
        ManifestLookup::Found(2)
    ));
    let none = ManifestLookup::begin((0, 0)).scanned().scanned();
    assert!(matches!(none, ManifestLookup::NotFound));
}

fn router(own_base_epoch: u64, ancestors: Vec<(u64, &str)>) -> SegmentPathRouter {
    let mut info = info("fork", 0);
    info.base_epoch = own_base_epoch;
    info.ancestors = ancestors
        .iter()
        .map(|(base_epoch, db_path)| ForkAncestor {
            db_path: db_path.to_string(),
            base_epoch: *base_epoch,
        })
        .collect();
    SegmentPathRouter::new(Path::from("vol/forks/fork"), Some(&info))
}

fn seg_key(epoch: u64, counter: u64) -> Path {
    Path::from(format!(
        "segments/{:02x}/{:016x}/{:016x}",
        counter & 0xff, epoch, counter
    ))
}

#[test]
fn reads_route_by_epoch_writes_stay_local() {
    let router = router(5, vec![(3, "vol/forks/a"), (0, "vol")]);
    assert_eq!(
        router.local(&seg_key(1, 1)),
        Path::from(format!("vol/forks/fork/{}", seg_key(1, 1)))
    );
    for (epoch, owner) in [
        (0, "vol"),
        (1, "vol"),
        (3, "vol/forks/a"),
        (4, "vol/forks/a"),
        (5, "vol/forks/fork"),
        (6, "vol/forks/fork"),
    ] {
        assert_eq!(router.owner_prefix(epoch), &Path::from(owner));
        assert_eq!(
            router.resolve(&seg_key(epoch, 7)),
            Path::from(format!("{}/{}", owner, seg_key(epoch, 7)))
        );
    }
    // Other paths, and keys without an epoch, are local.
    for path in ["manifest/1.manifest", "segments/ab", "segments/ab/xyz/1"] {
        assert_eq!(
            router.resolve(&Path::from(path)),
            Path::from(format!("vol/forks/fork/{path}"))
        );
    }
}

#[test]
fn ancestor_paths_are_normalized() {
    let routes = router(9, vec![(0, "/vol//a b[1]/")]);
    assert_eq!(routes.owner_prefix(1), &Path::from("/vol//a b[1]/"));
    assert_eq!(routes.owner_prefix(1).as_ref(), "vol/a b%5B1%5D");
}

#[test]
fn routers_describe_themselves() {
    assert_eq!(
        router(5, vec![(3, "vol/forks/a"), (0, "vol")]).describe(),
        "SegmentPathRouter(vol/forks/fork, base_epoch=5, ancestors=2)"
    );
}

#[test]
fn epochs_older_than_every_base_belong_to_the_root_ancestor() {
    let routes = router(9, vec![(4, "vol"), (6, "vol/forks/a")]);
    assert_eq!(routes.owner_prefix(1), &Path::from("vol"));
    let routes = router(9, vec![]);
    assert_eq!(routes.owner_prefix(1), &Path::from("vol/forks/fork"));
}

#[test]
fn non_fork_routes_everything_local() {
    let router = SegmentPathRouter::new(Path::from("vol"), None);
    assert_eq!(
        router.resolve(&seg_key(9, 1)),
        Path::from(format!("vol/{}", seg_key(9, 1)))
    );
    assert_eq!(router.resolve(&seg_key(0, 1)), router.local(&seg_key(0, 1)));
    // Under the root of the store a path is its own.
    let router = SegmentPathRouter::new(Path::from(""), None);
    assert_eq!(router.local(&seg_key(9, 1)), seg_key(9, 1));
}

#[test]
fn segment_epochs_are_hexadecimal() {
    assert_eq!(SegmentPathRouter::key_epoch(&seg_key(0x1f, 2)), Some(0x1f));
    assert_eq!(
        SegmentPathRouter::key_epoch(&Path::from("segments/00/ABcd/0")),
        Some(0xabcd)
    );
    for path in [
        "segments/00",
        "segments/00/10000000000000000/0",
        "segments/00/-1/0",
        "other/00/01/0",
        "",
    ] {
        assert_eq!(SegmentPathRouter::key_epoch(&Path::from(path)), None);
    }
}

#[test]
fn paths_are_placed_under_the_volume_and_listed_without_it() {
    let router = SegmentPathRouter::new(Path::from("vol/forks/fork"), None);
    for path in [seg_key(9, 1), Path::from("fork.json"), Path::from(""), Path::parse("a%20b").unwrap()] {
        assert_eq!(router.relative(&router.local(&path)), path);
    }
    // Segments are taken as they stand.
    let odd = Path::parse("a%20b/c").unwrap();
    assert_eq!(router.local(&odd).as_ref(), "vol/forks/fork/a%20b/c");
    assert_eq!(router.local(&Path::from("")), Path::from("vol/forks/fork"));
    // What lies elsewhere keeps its path.
    for path in ["vol/forks/fork2/x", "vol", "other/x"] {
        assert_eq!(router.relative(&Path::from(path)), Path::from(path));
    }
    let root = SegmentPathRouter::new(Path::from(""), None);
    assert_eq!(root.relative(&Path::from("a/b")), Path::from("a/b"));
}

#[test]
fn at_arguments_are_rfc3339() {
    assert_eq!(
        parse_at(Some("1970-01-02T00:00:00.5+01:00".to_string())).ok().unwrap(),
        Some((82_800, 500_000_000))
    );
    assert_eq!(
        parse_at(Some("1969-12-31T23:59:59Z".to_string())).ok().unwrap(),
        Some((-1, 0))
    );
    assert_eq!(parse_at(None).ok().unwrap(), None);
    let err = parse_at(Some("yesterday".to_string())).err().unwrap();
    assert_eq!(err.text, "yesterday");
    assert!(!err.error.to_string().is_empty());
}

#[test]
fn listings_show_what_can_be_shown() {
    assert_eq!(
        branch_row("b".to_string(), 7, Some((0, 0))),
        ["b", "7", "1970-01-01T00:00:00+00:00"]
    );
    assert_eq!(branch_row("b".to_string(), 0, None), ["b", "0", ""]);
    assert_eq!(branch_row("b".to_string(), u32::MAX, Some((0, -1))), ["b", "4294967295", ""]);
    assert_eq!(branch_row("b".to_string(), 10, Some((i64::MAX, 0))), ["b", "10", ""]);
    assert_eq!(
        fork_row("f".to_string(), "v/forks/f".to_string(), "v".to_string(), u64::MAX),
        ["f", "v/forks/f", "v", "18446744073709551615"]
    );
}
