# sch_hierarchy

Hierarchical sheets of KiCad schematics, as a verified library: adding, editing,
moving, deleting and copying sheets; adding, editing, deleting and importing the
pins on a sheet box; and walking the tree of sheet files to describe it, renumber
its pages, or compare pins with labels.

- `src/` decides and computes. Every function has a contract that says exactly
  what it returns and when it refuses, and Verus proves it. The three functions
  that draw UUIDs say it for whatever is drawn, and promise of a draw its form
  alone. The `law_*` proof functions state what holds across several calls.
- `app/` reads arguments and files, calls the library, writes files and answers.
  `app/store.rs` says what it needs of the files, `app/konnect.rs` has it from the
  schematic editor of the workspace.
- `tests/` runs the library on concrete values.

Lengths are held as whole numbers of 10^-12 mm, angles as whole numbers of
10^-12 degrees. Paths are text with `/` between the names; `paths` turns paths with
`\` and drive letters into that form and back, and `app/` does so at its edge. The
walks over the tree
of sheets work on a list of the files found on disk; where a file is needed that
is not listed, they give its path, so that a caller can list it and walk again.
