# jackdaw

The editing logic of a level editor, verified with Verus: the registry of
definition assets and what a rescan of their directories changes, the undo
history, the scene
hierarchy panel (drops that keep the scene a tree, filtering), brush editing
(edit modes, picking, deleting, dragging, clipping, drawing), the asset
browser's listing, the inspector's component list and field rows, entity
templates, and the animation graph window and clip timeline.

- `src/` is the verified library. Each module states its contracts over
  sequences, maps and spec functions; the laws the editor relies on stand as
  proof functions named `law_*`.
- `tests/` runs the library on concrete values.
- `app/` holds what stays outside verification: reading directories, writing
  files, watching the assets directory, the brush geometry (floating point,
  in `app/geometry.rs`), and the other readings that come as floating point.

Run Verus on `src/lib.rs` to check the library.
