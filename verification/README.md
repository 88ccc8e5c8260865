# chips_core

The micro-kernel of the Chips ecosystem: central request routing, module
management, an event bus and layered configuration, with the kernel's
logic verified by Verus.

## Layout

- `src/` — the verified library. Every function carries a `requires` /
  `ensures` contract that Verus proves.
  - `module/` — module descriptions and their validation, versions and
    version requirements, the dependency graph (load order, cycles), the
    dependency resolver, the registry, the loader, module lifecycles and
    health, and the module manager.
  - `router/` — requests and responses, the request validator, the route
    table, the priority request queue, events, the subscription registry
    and what delivery promises (`bus_laws`), timeouts, statistics and the
    admission and reply decisions of the router.
  - `config.rs`, `config_store/` — kernel settings, and the configuration
    tree with its laws (`config_store/laws.rs`): a read gives back a
    write, a removed value is gone, merging behaves as documented.
  - `api/` — the IPC protocol (requests, responses, commands, connection
    steps) and the kernel facade.
  - `utils/` — errors and their codes, ids, text helpers, logging
    settings, metrics and resource figures.
- `app/` — the program around the library: the command line, files,
  sockets, tasks, timers and the tracing subscriber. It hands the library
  plain values and acts on what it answers.
- `tests/` — tests of the library, run against the compiled crate.

Calls into outside crates (`semver`, `regex`, `uuid`, `rand`, `chrono`,
`serde_json`) stand behind small trusted wrappers whose contracts state what
those crates document; everything built on them is verified.
