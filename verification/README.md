# deepscan

Disk forensics for macOS, with the rules of the engine proved in Verus: what counts as
reclaimable, what is flagged as an outlier or a leak, what may be deleted, and what every view
shows.

- `src/` is the library. It reads no disk: a directory is handed to it as a tree of names and
  sizes, and it hands back reports, plans, screens and decisions. Every function has a contract;
  the laws that span functions are public proof functions beside them.
- `app/` is the command line around it: reading the disk, running the system's tools, drawing
  on the terminal, reading and writing files.
- `tests/` runs the library on concrete values.

The library calls three crates and believes what their documentation says: `shellexpand` for `~`
and variables, `glob::Pattern` for file names, `blake3::hash` for digests. It also takes the word
of the standard library for two functions on strings, `String::push` and `str::to_lowercase`.

Sizes are compared, printed and drawn as double-precision numbers would be. `src/double.rs` says
what that means in integers, so that it can be proved.
