# dsh_launcher

The logic of a macOS launcher for `dsh web` (the DeepSeek Harness web UI),
written in Verus: every function of the library carries a contract that
Verus proves.

The launcher locates an installed `dsh`, spawns
`<node> <dsh> web --host 127.0.0.1 --port <port> --no-open`, waits for the
readiness signature (`GET /` and `GET /manifest.webmanifest` answer 200,
`GET /api` answers 404), shows dsh in its web view and watches it. It also
maintains dsh's session archive on disk and serves a right sidebar (Git
changes, file tree, previews).

## Layout

- `src/` — the verified library.
  - `text.rs`, `paths.rs`, `json.rs` — text, path and JSON models.
  - `candidate.rs`, `locate.rs` — dsh candidates, version order, and the
    location pass as a state machine (Tier 0 settings, Tier 1 scan, Tier 2
    PATH files, Tier 3 login shell).
  - `launch.rs` — settings, the launch command and its environment.
  - `http.rs` — the readiness probe, process listings, stderr capture.
  - `supervise.rs` — the shared launcher state, the supervised lifecycle as
    a state machine, the 30 s readiness wait (250 ms polls) and the
    process-group teardown (SIGTERM, 5 s grace, SIGKILL).
  - `archive.rs` — un-archiving and deleting sessions in the workspace
    registry.
  - `git_diff.rs`, `file_tree.rs`, `base64.rs`, `preview.rs` — the
    sidebar's data (the text preview is cut to 1 MiB without splitting a
    character).
  - `logging.rs` — UTC timestamps (a proved calendar) and log lines.
  - `inject.rs` — assembling the script injected into dsh's page.
- `tests/` — tests of the library.
- `app/` — the Tauri program: windows, commands, files, processes and
  sockets. It performs what the library's state machines ask for.

Laws proved in `src/` include: version comparison is reflexive,
antisymmetric and transitive, and ranks a pre-release below its release;
sorting candidates is a permutation that orders every pair (lower source
priority first, then higher version) and is stable; reported candidates name
each executable once, were all reported to be regular files and, without a
`dsh_path` setting (or when it names no file), none is user-specified; a
folder's children in the file tree are its non-ignored entries, folders
first, then by name; base64 decoding gives the encoded bytes back; the spawn
PATH keeps the current entries and always has the Homebrew locations; un-
archiving edits only `global.archivedSessionIds`, removes exactly the
entries that are among the requested ids, and a second run changes nothing;
a delete checks the registry before choosing any directory, and removes only
`<root>/<id>` and `<root>/<workspace>/<id>`; the text preview of the start
of a UTF-8 file is UTF-8; a safe session id cannot leave the storage tree;
app teardown runs once; a launcher connected to an instance it did not start
never spawns or kills; SIGKILL is sent at most once, after the grace period;
the calendar conversion is the inverse of the day count, yields valid dates,
and maps consecutive day numbers to consecutive dates; the injected bundle
is an IIFE and is brace-balanced whenever its fragments are.
