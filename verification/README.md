# codex_quota

The task, quota and snapshot logic of the Codex quota floating window, verified with
Verus.

- `src/` is the verified library. `domain` holds the data the window shows;
  `task_registry`, `poller`, `rollout_watcher` and `snapshot_store` decide what the task
  list, the quota history and the published snapshot are; `codex_protocol` and `json`
  read the app-server's replies; `lan_server`, `tray`, `commands`, `snapshot_cache`,
  `hook_diagnostics` and `diagnostics` hold the decisions of the surrounding service.
- `tests/` exercises the library on concrete values.
- `app/` is the service around it: the app-server process, the polling loops, file and
  network I/O, the LAN server and serde copies of the data types.

A task that is neither running, waiting nor done has the status `TaskStatus::Inactive`
in the library (`None` is a name the verifier keeps for itself); the serialised form
in `app/` still writes it as `"none"`. Which Codex binary is launched is decided in
`commands` (`codex_binary_candidates`, `first_existing`); `app/` only reads the
environment and asks which candidates are files.
