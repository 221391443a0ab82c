# memtop

A terminal monitor of the processes of Linux, in two parts.

- `src/` is the library, verified with Verus. It parses the files of `/proc`
  (`stat`, `status`, `smaps_rollup`, the names of directory entries), builds
  the list and the tree of processes from a snapshot of them, lays the tree
  out in rows, and keeps the state of the interface: the tabs, the selected
  row of a table, and what each key does.
- `app/` is the program around it: it reads `/proc` into a snapshot, measures
  the system usage with `sysinfo`, reads keys and draws with `ratatui`.

Modules of the library: `text` (white space, tokens, lines, decimal numbers),
`process` (the `/proc` records and their parsers), `process_list`,
`process_tree`, `tree_layout`, `table`, `tabs`, `panes`, `event_loop`.
