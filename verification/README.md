# sedit

An S-expression editor for Scheme that edits code as a tree of nodes
instead of parentheses, with Vim-like keys. This crate is its library,
verified with Verus: every function in `src/` carries a contract, and the
laws of the editor (undo and redo, Enter and Backspace, indenting and
unindenting a subtree whose nodes are below the largest `usize` depth,
repairing depths, reading data into a tree, hoisting comments, reading
back printed symbols) are proof functions.

- `src/reader.rs`: the reader, a function from text to data, specified by
  a grammar written as spec functions.
- `src/node.rs`: nodes, the tree built from data, normalizing blocks.
- `src/pattern.rs`: search patterns, calling the `regex` crate through
  wrappers whose contracts name what the calls return.
- `src/app/`: the editor state and every command: editing, Visual mode,
  search and `:s`, the source view, the `:` commands, the keys, and what
  the screen shows.
- `app/main.rs`: the terminal program (crossterm and ratatui), which runs
  the key loop, draws, and reads and writes the files the library asks
  for.
- `tests/`: tests run against the compiled library.
