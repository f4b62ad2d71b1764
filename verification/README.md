# sb-agent-core

Shared runtime for SecuryBlack's Rust agents, split in two:

- `src/` — the verified library (`sb_agent_core`). Every decision and text
  transformation the agents share, each with a Verus contract:
  - `buffer`: the offline ring buffer (keeps the newest snapshots) and the
    tick-based exponential backoff, with laws on doubling, capping and skipping;
  - `net`: `host:port` extraction from an endpoint and the IPv4-first try order;
  - `config`: rewriting one `field = value` line of `config.toml` in place,
    with laws that a second sync of the same value writes nothing;
  - `intake_auth`: the shared token's path, format, file reading and
    comparison, and the retry policy after losing the creation race;
  - `command_intake`: envelope/progress/response types, the token check, the
    timeout, progress stamping and the bounded memory of recent command ids;
  - `status`, `cli`, `tui`, `updater`: socket names, common arguments, the
    `top` view's colours and uptime, updater settings;
  - `text`: the `str` operations above stated over `Seq<char>`.
- `app/` — the I/O around it: sockets and named pipes, files, the tokio
  runtime, logging, the terminal UI, the Windows service and self-update.
