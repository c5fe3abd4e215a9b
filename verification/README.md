# deploy-utils

Utilities for working with [`deploy-rs`](https://github.com/serokell/deploy-rs):
`deploy-utils status` compares the store paths deployed on each node with the
paths evaluated from a flake, and `deploy-utils push` copies profile closures
to their nodes without deploying them.

The library under `src/` is written in Verus; every function carries a contract
that Verus proves:

- `natural_sort` — natural ordering of node and profile names, with proofs that
  it is a strict total order consistent with string equality;
- `target` — the `node.profile` target syntax with quoting, as a scanner over
  characters;
- `nix` — Nix string literals, proved to read back as the string they encode;
- `profile` — combining `deploy-rs` options, resolving users and profile
  paths, keeping nodes and profiles in natural order, selecting nodes, and
  quoting `NIX_SSHOPTS` (proved to split back into the options);
- `display` — styled text, tables, widths, indentation and command lines;
- `command` — the classification and description of failed external programs;
- `cli` — the command-line options as plain values and the decisions of the
  `push` and `status` subcommands.

The program under `app/` parses the command line, runs `nix` and `ssh`,
decodes JSON, evaluates in parallel, logs and prints. The decisions it acts on
(the arguments of each command, what a failed command means, the messages of
errors) come from the library; what stays in `app/` is the running of
commands, the parallelism, logging, and the building of error reports. The
`push` targets select nodes; the profile part of a target and the profile option
overrides are parsed but not applied.
