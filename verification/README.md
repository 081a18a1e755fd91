# nullstack_swc

The transform that Nullstack applies to JavaScript and TypeScript modules, as a
verified library and an SWC plugin around it.

- `src/` is the library, checked by Verus. `lib.rs` chooses the passes for a file
  (`transform_passes`) and derives the file's path below the project
  (`relative_file_path`). `loaders/` holds one visitor per pass: each keeps, as plain
  values, what the pass learns while a module is walked, and decides what the pass
  inserts, replaces or drops; `loaders/mod.rs` holds the hashes of files and classes.
  `text.rs` and `assoc.rs` are the string operations and the name-keyed tables they
  share.
- `app/` is the plugin: it reads the host's metadata and options, walks the syntax
  tree with SWC, reports what it meets to the visitors, and builds the syntax nodes
  they call for.
- `tests/` runs the library on the situations the transform is meant for.
