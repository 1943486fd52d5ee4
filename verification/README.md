# medulla_tui

The decision-making core of the Medulla terminal UI, written in Verus and
proved against its contracts.

`src/` is the verified library:

- `rail`, `rail_hit`, `fold` — the Agents rail: its rows, the identity-keyed
  cursor that stays on the row the operator picked, pointer targets, and the
  assembly of the `Host → Agent → Session` tree (lanes into agent groups,
  groups onto hosts, live sessions onto task rows or agents).
- `login`, `cli`, `waitlist` — the sign-in screen's state machine, `medulla
  login` flag parsing, and the waitlist screen's decisions.
- `workspace`, `path_display` — ranking and remembering workspaces for the
  harness launcher, and `~` compaction of paths.
- `declarations` — worker specs a host advertises from its agent
  declarations, with seeds that never impersonate a dropped declaration.
- `node_preview`, `run_preview` — what the workflow step preview shows:
  kind-specific presentations, numbered and coloured source, credential
  masking, and what a run recorded for a node.
- `footer`, `status_line`, `memory_keys`, `narration` — footer wrapping,
  Status line rows, Memory page keys, and background-work status messages.
- `task_sources`, `memory_view`, `bounties` — what the Tasks source page,
  the Memory lists and the bounty pages show.
- `startup` — which config file receives write-backs, and the first status.
- `text`, `sort` — string helpers and a verified stable sort.

`app/` holds the adapters the library cannot: terminal key events, JSON
values, rendered lines, and the filesystem.
