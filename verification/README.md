# termconnect

A dual-panel terminal file manager for local files and SFTP servers,
whose core is written in Verus and proved against its contracts.

- `src/` is the verified library: panels and sorting, key bindings,
  dialogs, notifications, `~/.ssh/config` parsing, saved connections and
  sessions, the steps of opening a connection, the search walk, the
  transfer queue, directory-copy planning and conflict resolution, and
  the text the interface shows. Calls into `unicode-width` and into std
  functions that vstd does not specify go through a few small trusted
  wrappers, each documented where it is declared.
- `app/` is the program around it: the terminal (ratatui, crossterm),
  the SSH and SFTP client (russh, russh-sftp), the tokio event loop,
  file I/O, and the serde forms of the configuration files.
- `tests/` exercises the library from outside.

Verify with `verus` on `src/lib.rs`; build and test with cargo.
