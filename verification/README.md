# mplug

mplug manages Lua plugins for the MangoWM / MangoWC Wayland compositors and
runs them in a daemon that feeds compositor events to Lua listeners.

The crate is split in two:

- `src/` is the library, verified with Verus: manifest validation, the
  enabled-plugin set and what `enable`, `disable` and `remove` do to it, how
  an enabled plugin resolves to the files it loads, the `mplug list` listing,
  log levels, log lines and the log tail, the Lua timer queue, the control
  socket and `mplug.dispatch` commands, compositor IPC replies and watch
  lines, and the state table the Lua listeners see.
- `app/` is the program around it: the command line, files, git, the Lua VM,
  the Wayland connection and the sockets. It hands the library plain values
  and acts on what comes back.

`src/laws.rs` states the properties that span several functions.
