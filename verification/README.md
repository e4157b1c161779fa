# cadforge

The semantic core of a BIM authoring tool, written in Verus: the model store with its
commands, undo and redo; element identities in IFC's 22-character form; property sets;
parametric families and their geometry recipes; the drafting tools' state machine; the render
fragment registry; an IFC4 STEP writer; and an IFC reader built on `ifc-lite-core`.

## Layout

- `src/` is the verified library. Its functions carry contracts (the methods of the traits
  that the application implements, and the clock read, state none), and the laws
  that relate several functions (undo restores, redo re-applies, a property read gives back
  what was written, identities round-trip through their bytes) are public proof functions.
  Floating-point values are carried as their `u64` bit patterns; the arithmetic on them is
  either done by glam behind trusted wrappers or left to traits (`PlacementMath`,
  `Arithmetic`, `RecipeGeometry`, `DraftGeometry`) that the application implements.
- `tests/` holds the tests, run against the compiled library with the real outside crates.
- `app/` is the demonstration program: it implements the floating-point traits with glam,
  builds a small building, cuts doors with a BSP boolean, drafts a wall by hand, exports the
  model to IFC and reads it back.
