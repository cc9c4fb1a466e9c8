# pbuild

A small, parallel, hash-based build tool: rules are declared in `pbuild.toml`,
input files are hashed to decide what needs rebuilding, independent rules run
in parallel, and hashes persist in `.pbuild.lock` for incremental builds.

The decisions of the tool are a library verified with Verus (`src/`); the
`pbuild` command around it (`app/`) reads files, runs processes and prints.

## Layout

- `src/config.rs` — the build file's model, profiles, `{{var}}` interpolation,
  durations, glob expansion, and the rules a build file declares.
- `src/graph.rs` — build plans (dependencies first, each target once, cycles
  and missing rules reported), the dependency tree, DOT output, merged plans.
- `src/engine.rs` — when a rule runs, the commands it runs, what a success
  records in the lock file, the wave scheduler, retries.
- `src/hash.rs` — content hashes (SHA-256, hex) and the lock file format.
- `src/depfile.rs` — Make-style depfiles.
- `src/cli.rs` — command-line options and subcommands, safety warnings,
  Makefile variable references and shell words.
- `src/import.rs` — converting a Makefile into `pbuild.toml`.
- `src/report.rs`, `src/json.rs`, `src/ui.rs` — what `--list`, `status`,
  `why`, `--explain` and the status lines print.
- `src/actions.rs`, `src/checks.rs`, `src/templates.rs`, `src/download.rs` —
  `--only`, `--watch`, `touch`, `prune`, `clean`, `add`, `edit`, `doctor`,
  `init`, and how downloads are unpacked.
- `src/strmap.rs`, `src/text.rs`, `src/types.rs` — tables, text helpers, rules
  and targets.

Laws proved about the library include: a plan is the depth-first walk of
the dependencies in the order they are listed, lists every rule after its
dependencies and each target once, exists exactly when the graph is
well-formed, and never deadlocks the scheduler; a shell rule's commands do
not depend on the environment; an attempt stops at its first failing
command; `init --detect` writes distinct tables that include the default
`build` rule; a rule just built is skipped
on the next run when nothing changed; `touch` leaves a rule's inputs clean;
the lock file and the remembered depfile inputs read back what was written;
durations read back what `duration_text` writes.
