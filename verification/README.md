# yer

The core of Yer, a terrain height-map editor, written in Verus and proved
against its contracts.

- `src/` is the library: the bounded undo history, the bookkeeping of unsaved
  changes, the placement and renumbering of layers and masks in their stacks,
  the index of bitmaps, the integer side of progressive previews (grid sizes,
  reuse of coarser samples, when to start a computation), preferences, and the
  decisions of the user interface (file names, window title, which layers can
  be raised or lowered). Laws that relate several operations are stated and
  proved as public proof functions next to the operations. Layer edits act
  on the stack of `(id, key)` pairs through `apply_to_stack`; the application
  reads that stack from its entities and writes the result back.
- `tests/` runs the library on concrete values.
- `app/` is the Bevy application around the library: systems and commands,
  files on disk, floating-point sampling, the viewport and the egui panels.

Calls into `uuid` go through two small trusted wrappers whose doc comments say
what is assumed of them; `image`'s error type is declared so that bitmap errors
can carry it.
