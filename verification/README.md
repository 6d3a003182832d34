# toolpulse

Toolpulse watches the developer tools installed on a machine: which versions
are installed, which are outdated, which global packages each package manager
holds, which projects and loose source files lie on disk, and when to remind
the user about updates.

## Layout

- `src/` — the verified library (Verus): the parsing, comparison and
  decision logic of the application, each function with its contract. The
  processes, network, directory reads, database and scheduler loop are in
  `app/`:
  - `text`, `json` — character-sequence helpers, and JSON documents (parsed
    by serde_json) with the lookups made in them;
  - `types`, `registry`, `settings` — the data, the builtin tool registry and
    the user settings;
  - `checker`, `versions`, `latest` — version extraction and comparison,
    installation sources, latest-version lookups and their cache;
  - `packages`, `sizes` — package listings and where their sizes are measured;
  - `projects`, `source_files`, `walk` — what the disk walks descend into,
    in which order, which files are manifests or loose sources, and what each
    manifest declares;
  - `commands`, `runner`, `tray`, `scheduler`, `history` — the command
    surface, run reporting, the tray menu, the notification scheduler and the
    history rows;
  - `platform` — the scripts that move a folder to the trash and open a
    terminal in it, with the path quoted for each shell.
- `tests/` — tests of the library on concrete values.
- `app/` — the unverified shell: child processes, HTTP, SQLite, directory
  reads, the settings file and the scheduler task.
