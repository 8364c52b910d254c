# dinghy-apple

Running Rust code on Apple devices and simulators.

The library in `src/` holds the logic, and Verus proves every function of it against its
contract:

- `target`, `cargo`, `path`: which target of a package an executable was built from;
- `config`, `cfgs`: the settings of a workspace and the compiler flags that follow from them;
- `rewrite`, `registration`: sources in which tests and benchmarks register themselves;
- `manifest`, `runner_source`, `host`: the crates that are generated around a target;
- `device`, `lock`, `session`, `app_bundle`: installing and running on a device;
- `simulator`: running on a simulator under the debugger;
- `ansi`, `screen`, `bytes`: output as it appears on the screen of a device;
- `text`, `number`, `ordered`, `quote`, `args`: text, numbers, ordered lists, quoting and
  arguments of programs.

What the proofs take for granted is stated on the few functions that call the standard
library, `json` and `syn` for it.

`app/` is the part that reads and writes files, starts programs and talks to the system.
