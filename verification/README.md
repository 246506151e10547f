# vex

Vex is the package manager and build tool for the Wave programming language:
it reads `vex.ws` manifests, resolves path and Git dependencies into the
`vex.lock` lockfile, and drives the `wavec` compiler.

This crate is written in Verus. The decisions of every command live in the
verified library under `src/`, each with a contract over mathematical models
(`Seq`, `Option`, views of the library's types):

- `text` — character-level string operations (trim, split, replace, decimal
  forms, sorting of names) stated over `Seq<char>`.
- `wson`, `json` — the values that `wson_rs` and `serde_json` parse, as plain
  enums; the parse calls themselves are trusted wrappers.
- `manifest`, `lockfile` — reading, checking and writing `vex.ws` and
  `vex.lock`, with the lockfile's normal form and its read-back law.
- `validate` — the preflight check of a `wavec build` invocation.
- `wavec` — the dry-run arguments and the check of the dry-run JSON plan.
- `location` — where a package lies relative to the project.
- `resolver` — the resolution state machine (requests, cycles, recorded
  packages), the Git commit plan, and the lockfile update decision.
- `commands` — argument handling and reports of `init`, `fetch`/`update`,
  `info`, `setup` and the build commands.

Public proof functions named `law_*` state the properties that hold across
calls. `app/` is the `vex` program: the file system, Git and process work,
and the walk over manifests on disk, which asks the library for its
decisions (requests, cycles, commits, checks, messages); what stays there
is the I/O and the formatting of I/O failures and elapsed time. `tests/` runs the library on
concrete inputs.
