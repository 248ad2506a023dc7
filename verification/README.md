# egui_tiles (verified core)

The tile arena behind a tabbed, tiling pane layout, written in Verus.

- `src/tiles.rs` — tiles, containers (tabs, linear, grid) and the `Tiles`
  arena keyed by `TileId`: fresh ids, insertion, removal, lookup, and the
  parent of a tile. The arena is viewed as a map from id to tile.
- `src/behavior.rs` — the egui-free half of `Behavior`, the close-request
  responses and what applying each one does to the tiles, and tab state.
- `src/grid.rs` — the column counts an automatic grid may use, with the rows
  and empty cells of each.
- `app/` — painting with `egui`: the `UiBehavior` trait (tab buttons, colors,
  strokes, drag previews) and the floating-point choice of a grid's columns.
- `tests/` — behavior of the arena, the close responses and the grid shapes.
