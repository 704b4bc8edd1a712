# pi-grok-adapter

The library behind `grok-pi`, which runs the Pi coding agent behind Grok
Build's terminal pager. Everything under `src/` is verified with Verus: each
public function states its result in its contract, and the laws that tie
several functions together are public proof functions (`law_*`).

## Layout

- `src/` — the verified library:
  - `json` — JSON values as the logic reads them; their text is serde_json's.
  - `text`, `path` — string and Unix path operations with their meaning.
  - `model` — Pi's state, models, commands, history and local session files.
  - `adapter` — the adapter's rules: command and model catalogs, effort
    levels, extension dialogs, compaction notifications, plan paths.
  - `context`, `cache_metrics` — context-usage numbers and the prompt-cache
    graph of a session.
  - `plan_mode`, `queue_bridge`, `subagent_bridge`, `goal_host`,
    `workflow_host`, `todo_bridge`, `background_bash_bridge` — the state
    machines and projections of Pi's extensions onto the pager.
  - `cli`, `session_paths`, `migrate_home`, `self_heal`, `pi_version`,
    `pi_rpc`, `launch`, `crash_report` — start-up: Pi's arguments, the
    session store, the home migration, extension self-heal, the host version
    check, the RPC channel, the bridge extensions and the child's arguments
    and environment, the crash report after a self-heal.
  - `pi_events`, `ext_requests`, `extension_ui` — what each event of Pi's
    stream does to the adapter state and what it asks of the client; the
    client's extension requests and their parameters; extension dialogs.
  - `theme`, `psm` — the Pi theme catalog and colors; PSM search queries,
    previews and snippets.
- `tests/` — tests of the library.
- `app/` — the `grok-pi` program: command line, environment, files, processes
  and the PSM database, each handed to the library for the decisions.
