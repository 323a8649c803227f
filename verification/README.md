# fdt

A parser for Flattened Devicetrees (DTB blobs) whose functions carry
contracts proved by Verus.

- `src/` is the verified library: the header and token stream
  (`parsing`), nodes and the standard nodes (`nodes`), properties and their
  values (`properties`), collecting `*-cells` values (`cell_collector`) and
  printing a tree in the source format (`pretty_print`). Each function
  states what it returns in terms of spec functions over the raw bytes of
  the blob; the `law_*` proof functions state properties that hold across
  functions.
- `tests/` runs the library on hand-built devicetree blobs.
- `app/` holds what the library's types cannot carry themselves (`Display`
  impls) and the example programs' printing.
