# Velos

The decisions of a small container control plane, written in Verus and proved against
their contracts: which worker a container goes to, what a worker does about the
containers assigned to it, which ports it serves, when it renews its lease, and what
`velosctl doctor` and `veloslet status` report.

- `src/` is the library. Nothing in it touches a file, a socket or another process: each
  function takes what was read and returns what to do. Every function with a body states in
  `ensures` what it returns, over mathematical models of the data, and the `law_*` proof functions
  state what holds of the library as a whole.
  - `scheduler`, `labels`: filter, score and pick a worker.
  - `reconcile`, `worker`, `runtime`, `heartbeat`: one pass of the worker, call by call,
    and what it may claim about its machine.
  - `proxy`: the node ports of a worker and their backends.
  - `daemon`, `config`, `host`, `memory`: secrets, settings, installation and capacity.
  - `doctor`, `status`, `report`: from observations to a report.
  - `json`, `text`: documents and strings. What the library takes on trust of
    `serde_json` and of `std` stands here, and nowhere else.
- `tests/` runs the library on concrete values.
- `app/` is the `veloslet` program around it: arguments, files, HTTP, processes, sockets.
