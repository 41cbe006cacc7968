# constellation

A framework for programs whose processes run on the machines of a cluster and
talk to each other over channels. The library holds what the framework decides
and computes, as Verus code with proved contracts; the programs around it do the
system calls.

* `src/` is the library. Each module starts with what it is about. Functions
  named `law_…` state what holds of several functions together.
  * `channel/` has the connections between processes: their buffers, handshakes
    and ends, and the channels on top of them.
  * `master`, `fabric`, `bridge`, `monitor`, `session` and `wait` decide where
    processes run, what is told of them and when they are over.
  * `startup`, `launch`, `mesh`, `descriptors`, `envs` and `args` decide how a process
    starts and what it is given.
  * `format`, `console` and `style` decide what a person is shown.
  * `deploy/` has the formats of programs that are started through `DEPLOY`
    variables.
  * `harness/` compares the recorded output of programs with what is expected.
* `app/` has the programs: a node of a cluster, its bridge, `deploy`,
  `cargo-deploy`, the runtime of a program, and a runner that tries programs out.
* `tests/` runs the library on concrete values.

The library calls outside crates only through functions marked
`external_body`. Each says in its documentation what it takes for granted.
