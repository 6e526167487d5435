# mise_completions_sync

Generates shell completion files (zsh, bash, fish) for the tools that mise has
installed, from a registry that maps tool names to the commands that print
their completions.

- `src/` is the verified library: registry resolution (`registry`), short names
  of tool identifiers (`tool_id`), completion file names per shell (`shells`),
  and the decisions of a sync and of a clean-up (`sync`), each with its contract
  and the laws that tie them together.
- `app/` runs the commands and touches the file system, handing the results to
  the library as plain values.
- `tests/` exercises the library on concrete values.
