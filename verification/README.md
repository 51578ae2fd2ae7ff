# git_tools

Git utilities whose logic is verified with Verus:

- **change-logs**: reference changelog drafts from `v*` tags, commits grouped
  by gitmoji, contributor walls, and GitHub author lookups by e-mail;
- **reword**: rewriting commit messages at the object layer from a hash-keyed
  map, relinking descendants, with dry runs and map templates;
- **retime**: spreading commit timestamps over a window (names and e-mails
  are kept) on a new branch;
- **bfg**: ranking the blobs of an object database by size;
- **lint**: commit message conventions and repeated subjects.

## Layout

- `src/` is the verified library. Every function states its result in its
  contract; laws that relate several functions are public proof functions.
  Calls into `regex`, `chrono`, `rand`, `byte-unit` and the
  parts of `std` that vstd does not describe go through small trusted
  wrappers whose contracts say what those crates document
  (`wrappers.rs`, `calendar.rs`, and a few in `retime.rs`, `blob.rs`, `text.rs`).
- `app/` is the command-line front end (`bfg`, `change-logs`, `retime`,
  `reword` subcommands): repository access through `gix`, `git` processes,
  files, HTTP through `ureq`, JSON through `serde_json`, and printing.
- `tests/` exercises the library on concrete values.
