# cargo-athena

Write workflows in Rust and run them on Argo. A `#[workflow]` function is read,
never run: the calls in its body become the tasks of a graph. A `#[container]`
function runs in a pod, from a binary that is built once and delivered to any
image as an artifact. `cargo athena` emits, publishes, submits and emulates.

## Layout

`src/` is the library. It is written in Verus: every function states in its
contract what it returns, and Verus proves it.

- `munge`, `names`, `distance`, `text`, `sorted`, `folds`, `maps`, `json`: names,
  text and ordered collections.
- `ast`, `scan`, `signature`, `attrs`, `durations`, `ghost`: what stands in the
  source of a workflow crate, and what its attributes say.
- `node`, `analyze`, `conditional`, `body`, `scope`, `graph`: from a workflow body
  to a graph of tasks, and what holds of every such graph.
- `lower`, `container`, `workflow`, `pvc`, `claims`, `delivery`, `context`, `values`:
  the templates on the wire.
- `program`, `collector`, `run_meta`, `modes`, `rt`: what a workflow binary
  gathers, tells and runs.
- `api`, `ser`: the subset of the Argo API that is written.
- `config`, `pkg`, `binsrc`, `gitinfo`, `publish`, `tarball`, `submit`, `emulate`,
  `dyn_args`, `ls`, `doctor`, `init`, `runner`, `feedback`, `answers`: what the
  commands decide and print.
- `outside`: calls into other crates. Nothing here is proved; each item says what
  it takes on trust.

`app/` is the program around the library: the command line, files, processes and
the network, the records that are read and written with serde, and the attribute
macros.

`tests/` runs the library on concrete values.

`extras/own_mount.c` looks for a host path that is spelt as its own mount, the one
path that `munge::law_mounted_elsewhere` leaves open. It goes through all of them, in
a few minutes, and finds none.
