# bulge

bulge is the package manager of yiffOS. This crate holds its logic as a
library verified with Verus, and a thin command-line program around it.

## Layout

- `src/` — the verified library.
  - `commands/` — what each command decides: install plans and queues,
    group installs, removal plans, updates, listings, local installs, the
    synchronization state machine, the command words and the help text.
  - `util/` — the package databases (repository caches and the
    installed-packages table), dependency resolution, file and package
    conflicts, configuration (JSON and KDL), mirror lists, digests, version
    comparison and text handling.
  - `static_files/` and `commands/setup_files/` — the default configuration
    files and mirror list.
- `app/` — the program: command line, SQLite storage, downloads, archives,
  prompts and the lock file.
- `tests/` — tests of the library.

The contracts speak of mathematical models (`Seq`, `Map`, views of the data
types); laws that relate several operations stand as public proof functions
named `law_*`.
