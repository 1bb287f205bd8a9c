# resonantos_core

The decision logic of a ResonantOS compute node, verified with Verus.

- `src/` — the verified library:
  - `agents/` — execution DAGs built from agent plans (validation,
    topological order, sensitivity propagation), the workflow orchestrator,
    step workers, the result cache, checkpoints and tool co-location.
  - `companion/` — phone pairing (QR codes, token expiry, subnets), model
    assignment against phone constraints, and the on-device inference
    runtime.
  - `daemon/` — the headless node daemon: configuration, control API,
    optimizer commands and health reporting.
  - `backtest_service`, `cost_ledger_service`, `experience_buffer_service`,
    `agent_evaluator_service`, `archive_service` — the rules and queries of
    the node's services.
  - `text`, `utf8`, `paths`, `ids`, `sql`, `clock` — text, path and
    identifier helpers with their specifications.
- `tests/` — unit and scenario tests of the library.
- `app/` — the `resonantos-node` program and the parts that do I/O or
  floating point: SQLite databases, checkpoint files, the TOML
  configuration file, process spawning,
  cost and score arithmetic.
