//! Keyspace, branch view, fork bookkeeping and segment routing of a ZeroFS
//! volume, with contracts.

pub mod blob;
pub mod branch;
pub mod branch_apply;
pub mod branch_apply_laws;
pub mod branch_merge;
pub mod branch_merge_laws;
pub mod branch_scan;
pub mod branch_scan_laws;
pub mod branch_view;
pub mod branch_view_laws;
pub mod cli;
pub mod encoding;
pub mod errors;
pub mod fixed_key;
pub mod fork_create;
pub mod fork_delete;
pub mod fork_info;
pub mod fork_list;
pub mod fork_manager;
pub mod fork_materialize;
pub mod instant;
pub mod key_codec;
pub mod key_laws;
pub mod layout_laws;
pub mod path;
pub mod point_in_time;
pub mod record;
pub mod replication;
pub mod segment_path_router;
pub mod serving;
pub mod sorting;
pub mod text;
pub mod transaction;
pub mod value_codec;
pub mod warm;
