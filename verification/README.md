# cosaci

Verified core of a continuous-integration network in which a committee of
independent runners executes each job and attests to what came of it. A job
settles by a stake-weighted quorum over the artifact hashes, runners in the
minority lose stake, and a settled job is anchored in a Merkle log.

- `src/`: the library. Data structures, wire formats, rules and state machines,
  each with a contract that Verus proves. `src/boundary/` holds the calls into
  outside crates and what is taken on trust of them.
- `tests/`: tests of the library on concrete values.
- `app/`: the program around the library: command line, sockets, TLS, files,
  processes.

Where to start reading: `quorum` and `coordinator::run` for how a job settles,
`jobs` for how a pipeline is run, `proto` and `wire` for what goes over the
network, `submission_auth` and `admin_auth` for who is let in.
