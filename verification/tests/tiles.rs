use egui_tiles::{
    Container, ContainerKind, Grid, Linear, LinearDir, TabState, Tabs, Tile, TileId, Tiles,
};

#[test]
fn fresh_ids_count_up_from_one() {
    let mut tiles: Tiles<&str> = Tiles::new();
    assert!(tiles.is_empty());
    let a = tiles.insert_pane("a");
    let b = tiles.insert_pane("b");
    let c = tiles.insert_tab_tile(vec![a, b]);
    assert_eq!((a, b, c), (TileId(1), TileId(2), TileId(3)));
    assert_eq!(tiles.len(), 3);
    assert_eq!(tiles.tile_ids(), vec![a, b, c]);
}

#[test]
fn next_free_id_skips_taken_ids() {
    let mut tiles: Tiles<&str> = Tiles::default();
    tiles.insert(TileId(1), Tile::Pane("x"));
    tiles.insert(TileId(2), Tile::Pane("y"));
    tiles.insert(TileId(4), Tile::Pane("z"));
    assert_eq!(tiles.next_free_id(), TileId(3));
    // The counter moved past 3, and 4 is taken: the next one is 5.
    assert_eq!(tiles.insert_pane("w"), TileId(5));
    assert_eq!(tiles.len(), 4);
}

#[test]
fn removed_id_is_not_reused() {
    let mut tiles: Tiles<u8> = Tiles::default();
    let a = tiles.insert_pane(1);
    assert_eq!(tiles.remove(a), Some(Tile::Pane(1)));
    assert_eq!(tiles.remove(a), None);
    let b = tiles.insert_pane(2);
    assert_ne!(a, b);
    assert_eq!(b, TileId(2));
}

#[test]
fn insert_replaces_in_place() {
    let mut tiles: Tiles<u8> = Tiles::default();
    let a = tiles.insert_pane(1);
    let b = tiles.insert_pane(2);
    tiles.insert(a, Tile::Pane(10));
    assert_eq!(tiles.tile_ids(), vec![a, b]);
    assert_eq!(tiles.get(a), Some(&Tile::Pane(10)));
    assert_eq!(tiles.get(b), Some(&Tile::Pane(2)));
}

#[test]
fn parent_of_finds_the_container() {
    let mut tiles: Tiles<u8> = Tiles::default();
    let a = tiles.insert_pane(0);
    let b = tiles.insert_pane(1);
    let inner = tiles.insert_tab_tile(vec![a, b]);
    let c = tiles.insert_pane(2);
    let outer = tiles.insert_horizontal_tile(vec![inner, c]);
    assert_eq!(tiles.parent_of(a), Some(inner));
    assert_eq!(tiles.parent_of(b), Some(inner));
    assert_eq!(tiles.parent_of(inner), Some(outer));
    assert_eq!(tiles.parent_of(c), Some(outer));
    assert_eq!(tiles.parent_of(outer), None);
    assert_eq!(tiles.parent_of(TileId(77)), None);
}

#[test]
fn parent_of_a_shared_child_is_the_first_in_order() {
    let mut tiles: Tiles<u8> = Tiles::default();
    let a = tiles.insert_pane(0);
    let t1 = tiles.insert_tab_tile(vec![a]);
    let t2 = tiles.insert_tab_tile(vec![a]);
    assert_eq!(tiles.parent_of(a), Some(t1));
    tiles.remove(t1);
    assert_eq!(tiles.parent_of(a), Some(t2));
}

#[test]
fn grid_cells_and_children() {
    let mut tiles: Tiles<u8> = Tiles::default();
    let a = tiles.insert_pane(0);
    let b = tiles.insert_pane(1);
    let g = tiles.insert_grid_tile(vec![a, b]);
    assert_eq!(tiles.parent_of(b), Some(g));
    let grid = Container::Grid(Grid { children: vec![Some(a), None, Some(b)] });
    assert_eq!(grid.children_vec(), vec![a, b]);
    assert!(grid.has_child(b));
    assert!(!grid.has_child(TileId(42)));
    assert_eq!(grid.kind(), ContainerKind::Grid);
    assert_eq!(Grid::new(vec![a, b]).children, vec![Some(a), Some(b)]);
}

#[test]
fn container_kinds() {
    let h = Container::Linear(Linear::new(LinearDir::Horizontal, vec![TileId(1)]));
    let v = Container::Linear(Linear::new(LinearDir::Vertical, vec![]));
    let t = Container::Tabs(Tabs::new(vec![TileId(3), TileId(4)]));
    assert_eq!(h.kind(), ContainerKind::Horizontal);
    assert_eq!(v.kind(), ContainerKind::Vertical);
    assert_eq!(t.kind(), ContainerKind::Tabs);
    assert_eq!(format!("{:?}", t.kind()), "Tabs");
    assert!(h.has_child(TileId(1)));
    assert!(!v.has_child(TileId(1)));
    assert_eq!(t.children_vec(), vec![TileId(3), TileId(4)]);
}

#[test]
fn tabs_start_on_their_first_child() {
    let mut tabs = Tabs::new(vec![TileId(7), TileId(8)]);
    assert_eq!(tabs.active, Some(TileId(7)));
    assert!(tabs.is_active(TileId(7)));
    tabs.set_active(TileId(8));
    assert!(tabs.is_active(TileId(8)));
    assert!(!tabs.is_active(TileId(7)));
    assert_eq!(Tabs::new(vec![]).active, None);
}

#[test]
fn tile_kinds() {
    let p: Tile<u8> = Tile::Pane(3);
    let c: Tile<u8> = Tile::Container(Container::Tabs(Tabs::new(vec![TileId(1)])));
    assert!(p.is_pane() && !p.is_container());
    assert!(c.is_container() && !c.is_pane());
    assert!(c.is_parent_of(TileId(1)));
    assert!(!p.is_parent_of(TileId(1)));
}

#[test]
fn tab_state_default_is_all_off() {
    let s = TabState::default();
    assert!(!s.active && !s.is_being_dragged && !s.closable);
}

#[test]
fn only_a_painted_closable_tab_can_be_closed() {
    let closable = TabState { active: true, is_being_dragged: false, closable: true };
    assert!(closable.is_painted(true));
    assert!(!closable.is_painted(false));
    assert!(closable.close_requested(true, true, false));
    assert!(closable.close_requested(true, false, true));
    assert!(!closable.close_requested(true, false, false));
    assert!(!closable.close_requested(false, true, true));

    let dragged = TabState { is_being_dragged: true, ..closable.clone() };
    assert!(!dragged.is_painted(true));
    assert!(!dragged.close_requested(true, true, true));

    let fixed = TabState { closable: false, ..closable };
    assert!(fixed.is_painted(true));
    assert!(!fixed.close_requested(true, true, true));
}

#[test]
fn insertion_can_be_tested_first() {
    let mut tiles: Tiles<u8> = Tiles::default();
    assert!(tiles.can_insert());
    assert_eq!(tiles.try_insert_new(Tile::Pane(1)), Some(TileId(1)));
    tiles.insert(TileId(2), Tile::Pane(2));
    assert_eq!(tiles.try_insert_new(Tile::Pane(3)), Some(TileId(3)));
    assert_eq!(tiles.get(TileId(3)), Some(&Tile::Pane(3)));

    // Ids past the counter taken by hand are skipped, not a reason to refuse.
    tiles.insert(TileId(u64::MAX), Tile::Pane(0));
    assert!(tiles.can_insert());
    assert_eq!(tiles.try_insert_new(Tile::Pane(4)), Some(TileId(4)));
}
