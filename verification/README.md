# zerofs

The keyspace of a ZeroFS volume and what is built on it, written in Verus:

- keys and values: `key_codec`, `fixed_key`, `value_codec`, `replication`, with
  the laws of the layout in `key_laws`;
- basin branches: point reads and deletes (`branch_view`), transactions
  (`branch_apply`, `transaction`), range and prefix scans (`branch_scan`,
  `branch_merge`), the registry (`branch`), each with its laws beside it;
- forks: lineage (`fork_info`), branch points (`fork_manager`,
  `point_in_time`), creation, building, listing and deletion
  (`fork_create`, `fork_materialize`, `fork_list`, `fork_delete`), and segment routing (`segment_path_router`);
- serving and cache warming: `serving`, `warm`.

The modules never touch a store. Where a decision needs one, a small state
machine says what to fetch or do next, and its contract says what comes out for
every answer.

`app/` runs these machines against SlateDB and an object store. What is taken
on trust from outside crates is stated in `blob` (bytes), `path`
(object_store), `instant` (chrono), `fork_manager` (uuid) and `text` (UTF-8
validation).
