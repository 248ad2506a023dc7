//! The tile-arena logic behind a tabbed, tiling pane layout: the tiles and
//! their containers, what closing a tab does to them, and the integer side of
//! choosing a grid's column count.

mod behavior;
mod grid;
mod tiles;

pub use behavior::{
    apply_close_response, focused, lemma_focus_makes_the_tile_active, lemma_legacy_close_bridge,
    Behavior, EditAction, OnCloseResponse, ResizeState, TabState,
};
pub use tiles::{
    filled_cells, lemma_container_children, lemma_filled_cells_contains, Container, ContainerKind, Grid,
    Linear, LinearDir, Tabs, Tile, TileId, Tiles,
};
pub use grid::{
    candidate_columns, candidate_count, grid_shape, grid_shape_candidates, is_column_candidate,
    is_shape_for, lemma_candidates_are_exactly_allowed, lemma_one_short_is_skipped_from_four_on,
    lemma_shape_leaves_less_than_a_row_empty, GridShape,
};
