# uncontainerizable

Graceful process lifecycle for programs that can't be put in real
containers (browsers, GUI apps): spawn a process under a namespaced
identity, preempt a predecessor with the same identity, and tear it down
through an escalating quit ladder (polite quit, SIGTERM, SIGKILL) with
per-app adapter hooks around every stage.

## Layout

- `src/` — the library, verified with Verus.
  - `ladder.rs`: the quit ladder as a state machine (`QuitLadder`). The
    runtime performs the step it is handed and reports what happened; the
    ladder decides everything else.
  - `container.rs`: options, results, stage descriptors, container state.
  - `identity.rs`, `app.rs`: identity validation and namespacing.
  - `error.rs`: the error types and their exact messages.
  - `probe.rs`: what is captured of a process at spawn.
  - `platforms/`: per-platform naming and parsing (cgroup paths and control
    files, `ps` output, PID files, Job Object names) and each platform's
    stage ladder.
  - `node.rs`: the shapes crossing the Node boundary and their conversions.
  - `text.rs`: `Seq<char>` models of the `str` operations the parsers use.
- `app/` — ordinary Rust around the library: the async adapter and stage
  traits, the drivers that carry out a quit and a destroy, the platform
  I/O (cgroup v2 on Linux, process groups and Launch Services on macOS,
  Job Objects on Windows), serde copies of the wire types and the napi
  bindings.
- `tests/` — tests of the library, run with the real outside crates.
