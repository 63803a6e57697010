# moulin

A sandbox runtime: it builds snapshots from Dockerfiles, starts sandboxes on them, and serves an
HTTP API for running commands, moving files and sharing volumes.

- `src/` is the library, verified with Verus. It holds the decisions: how a Dockerfile is read and
  its layers named, how an image is pulled, what the records say of snapshots, sandboxes, volumes
  and build artifacts, which path on the host a path in a sandbox stands for, how commands are put
  together and their ends are told, and what the server answers.
- `app/` is the program around it: the file system, the network, processes, mounts, and JSON. It
  performs what the library asks for and hands the outcome back.
- `tests/` runs the library on concrete values.

What reaches outside (digests, base64, JSON texts, times, random identifiers) stands in
`src/outside.rs`, each call behind a function whose contract is taken on trust.

Laws that hold of several functions together are the public proof functions whose names start with
`law_`.
