# cowt

Copy-on-write worktrees for a directory. `cowt fork` takes a snapshot of a
directory, `cowt run` runs a command in a merged view of it whose writes go to
a layer of their own, `cowt diff` shows what changed, `cowt apply` merges the
changes back, and `cowt drop` discards them. The directory itself is only
written by `apply`.

- `src/` is the library: names and state of worktrees, pid files, the merged
  view and its layers, mounting and taking down, and the rules of each command.
  Everything in it is verified with Verus. What alternates with the system is
  written as a function from a step and what came of it to the next step; what
  holds of every sequence of steps is stated and proved in functions whose names
  begin with `law_`.
- `app/` is the program: arguments, files, processes, mounts, and the FUSE and
  WinFsp front ends. It performs the steps that the library asks for.
- `tests/` runs the library on concrete values.

The modules, from the ground up: `text`, `number`, `order`, `path`, `host` and
`json` for plain values; `state`, `worktrees`, `pidfile` and `residue` for what
is kept on disk; `layers`, `overlay`, `inodes`, `cowfs`, `windows` and
`completing` for the merged view; `backend`, `linux` and `mounting` for the
ways to mount it; `forking`, `running`, `diffing`, `applying`, `dropping`,
`listing` and `cli` for the commands.
