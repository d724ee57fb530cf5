# erlangrt

An agent runtime whose rules are proved with Verus: processes that exchange messages under a
scheduler and supervisors, orchestrations that hand tasks to workers, tools spoken to over
JSON-RPC, tables and mailboxes that survive a restart, and a loader and opcodes for BEAM code.

- `src/` is the library. Every function carries a contract that Verus proves. What holds of the
  library as a whole stands in public proof functions whose names begin with `law_`.
- `tests/` runs the library on concrete values.
- `app/` is the program around the library: files, sockets, clocks, the database, the servers of
  tools, and floating point.

A time is a number of nanoseconds that the caller passes in, so every decision depends on its
arguments alone. JSON and TOML are read and printed by `serde_json` and `toml`, and requests go
through channels of `crossbeam_channel`; what is taken on trust of these crates is said at each
call.

`Cargo.toml` names `takecell`, which no file here uses, to hold that crate, which `zeptoclaw` brings
with it, to a version that builds.
