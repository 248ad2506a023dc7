use egui_tiles::{
    apply_close_response, Behavior, Container, OnCloseResponse, Tile, TileId, Tiles,
};

#[derive(Debug, PartialEq)]
struct Pane(u32);

/// A behavior that returns a fixed [`OnCloseResponse`] from the new hook.
struct FixedResponseBehavior(OnCloseResponse);

impl Behavior<Pane> for FixedResponseBehavior {
    fn on_tab_close_response(&mut self, _tiles: &mut Tiles<Pane>, _tile_id: TileId) -> OnCloseResponse {
        self.0
    }
}

/// A behavior that only overrides the legacy boolean hook, to exercise the
/// default `on_tab_close_response` bridge.
struct LegacyBoolBehavior(bool);

impl Behavior<Pane> for LegacyBoolBehavior {
    fn on_tab_close(&mut self, _tiles: &mut Tiles<Pane>, _tile_id: TileId) -> bool {
        self.0
    }
}

/// A `Tabs` root with two pane children: `(tiles, root, first_pane, second_pane)`.
fn tabs_tree_with_two_panes() -> (Tiles<Pane>, TileId, TileId, TileId) {
    let mut tiles = Tiles::default();
    let a = tiles.insert_pane(Pane(1));
    let b = tiles.insert_pane(Pane(2));
    let root = tiles.insert_tab_tile(vec![a, b]);
    (tiles, root, a, b)
}

/// The active child of the (single) Tabs container among the tiles.
fn active_of_tabs(tiles: &Tiles<Pane>) -> Option<TileId> {
    for id in tiles.tile_ids() {
        if let Some(Tile::Container(Container::Tabs(tabs))) = tiles.get(id) {
            return tabs.active;
        }
    }
    None
}

fn children_of(tiles: &Tiles<Pane>, id: TileId) -> Vec<TileId> {
    match tiles.get(id) {
        Some(Tile::Container(c)) => c.children_vec(),
        other => panic!("expected a container at {id:?}, got {other:?}"),
    }
}

#[test]
fn close_removes_tile_and_tree_stays_valid() {
    let (mut tiles, root, a, b) = tabs_tree_with_two_panes();
    let mut behavior = FixedResponseBehavior(OnCloseResponse::Close);

    let resp = behavior.on_tab_close_response(&mut tiles, a);
    apply_close_response(&mut tiles, a, resp);

    assert!(tiles.get(a).is_none(), "Close should remove the tile");
    // Only the tile leaves the arena: the other pane and the container stay,
    // and the container still names the removed child until the tree is cleaned up.
    assert_eq!(tiles.get(b), Some(&Tile::Pane(Pane(2))));
    assert_eq!(children_of(&tiles, root), vec![a, b]);
    assert_eq!(tiles.len(), 2);
}

#[test]
fn ignore_keeps_tile_and_tree_stays_valid() {
    let (mut tiles, root, a, b) = tabs_tree_with_two_panes();
    let mut behavior = FixedResponseBehavior(OnCloseResponse::Ignore);

    let resp = behavior.on_tab_close_response(&mut tiles, a);
    apply_close_response(&mut tiles, a, resp);

    assert!(tiles.get(a).is_some(), "Ignore must NOT remove the tile");
    assert_eq!(tiles.tile_ids(), vec![a, b, root]);
    assert_eq!(active_of_tabs(&tiles), Some(a));
    assert_eq!(children_of(&tiles, root), vec![a, b]);
}

#[test]
fn focus_keeps_tile_and_makes_it_active() {
    // Start with `b` active so that focusing `a` is an observable change.
    let (mut tiles, root, a, b) = tabs_tree_with_two_panes();
    for id in tiles.tile_ids() {
        if let Some(Tile::Container(Container::Tabs(tabs))) = tiles.get_mut(id) {
            tabs.set_active(b);
        }
    }
    assert_eq!(active_of_tabs(&tiles), Some(b));

    let mut behavior = FixedResponseBehavior(OnCloseResponse::Focus);
    let resp = behavior.on_tab_close_response(&mut tiles, a);
    apply_close_response(&mut tiles, a, resp);

    assert!(tiles.get(a).is_some(), "Focus must NOT remove the tile");
    assert_eq!(
        active_of_tabs(&tiles),
        Some(a),
        "Focus must make the tile the active tab of its parent Tabs"
    );
    assert_eq!(children_of(&tiles, root), vec![a, b]);
    assert_eq!(tiles.tile_ids(), vec![a, b, root]);
}

#[test]
fn focus_on_tile_without_tabs_parent_is_noop() {
    // A pane that is the lone root (no Tabs parent). Focus must be a no-op, never a removal.
    let mut tiles = Tiles::default();
    let a = tiles.insert_pane(Pane(1));

    let mut behavior = FixedResponseBehavior(OnCloseResponse::Focus);
    let resp = behavior.on_tab_close_response(&mut tiles, a);
    apply_close_response(&mut tiles, a, resp);

    assert!(
        tiles.get(a).is_some(),
        "Focus on a parentless tile must NOT remove it"
    );
    assert_eq!(tiles.get(a), Some(&Tile::Pane(Pane(1))));
    assert_eq!(tiles.len(), 1);
}

#[test]
fn legacy_bool_false_bridges_to_ignore() {
    let (mut tiles, _root, a, _b) = tabs_tree_with_two_panes();
    let mut behavior = LegacyBoolBehavior(false);

    // The default `on_tab_close_response` should bridge `false` -> Ignore.
    let resp = behavior.on_tab_close_response(&mut tiles, a);
    assert_eq!(resp, OnCloseResponse::Ignore);

    apply_close_response(&mut tiles, a, resp);
    assert!(
        tiles.get(a).is_some(),
        "Legacy `false` must keep the tile (Ignore)"
    );
    assert_eq!(tiles.len(), 3);
}

#[test]
fn legacy_bool_true_bridges_to_close() {
    let (mut tiles, _root, a, _b) = tabs_tree_with_two_panes();
    let mut behavior = LegacyBoolBehavior(true);

    let resp = behavior.on_tab_close_response(&mut tiles, a);
    assert_eq!(resp, OnCloseResponse::Close);

    apply_close_response(&mut tiles, a, resp);
    assert!(
        tiles.get(a).is_none(),
        "Legacy `true` must remove the tile (Close)"
    );
    assert_eq!(tiles.len(), 2);
}

#[test]
fn focus_on_tile_under_a_linear_parent_changes_nothing() {
    let mut tiles = Tiles::default();
    let a = tiles.insert_pane(Pane(1));
    let b = tiles.insert_pane(Pane(2));
    let root = tiles.insert_horizontal_tile(vec![a, b]);
    apply_close_response(&mut tiles, b, OnCloseResponse::Focus);
    assert_eq!(tiles.tile_ids(), vec![a, b, root]);
    assert_eq!(children_of(&tiles, root), vec![a, b]);
    assert_eq!(tiles.get(b), Some(&Tile::Pane(Pane(2))));
}

#[test]
fn focus_on_nested_tab_activates_only_its_own_parent() {
    let mut tiles = Tiles::default();
    let a = tiles.insert_pane(Pane(1));
    let b = tiles.insert_pane(Pane(2));
    let inner = tiles.insert_tab_tile(vec![a, b]);
    let c = tiles.insert_pane(Pane(3));
    let outer = tiles.insert_tab_tile(vec![inner, c]);

    apply_close_response(&mut tiles, b, OnCloseResponse::Focus);
    match tiles.get(inner) {
        Some(Tile::Container(Container::Tabs(t))) => assert_eq!(t.active, Some(b)),
        other => panic!("expected tabs, got {other:?}"),
    }
    match tiles.get(outer) {
        Some(Tile::Container(Container::Tabs(t))) => assert_eq!(t.active, Some(inner)),
        other => panic!("expected tabs, got {other:?}"),
    }
}

#[test]
fn close_of_a_missing_tile_changes_nothing() {
    let (mut tiles, root, a, b) = tabs_tree_with_two_panes();
    apply_close_response(&mut tiles, TileId(999), OnCloseResponse::Close);
    assert_eq!(tiles.tile_ids(), vec![a, b, root]);
}

#[test]
fn legacy_response_table() {
    assert_eq!(OnCloseResponse::from_legacy_close(true), OnCloseResponse::Close);
    assert_eq!(OnCloseResponse::from_legacy_close(false), OnCloseResponse::Ignore);
}

struct Defaults;

impl Behavior<Pane> for Defaults {}

#[test]
fn behavior_defaults() {
    let mut tiles = Tiles::default();
    let a = tiles.insert_pane(Pane(1));
    let mut behavior = Defaults;
    assert!(!behavior.is_tab_closable(&tiles, a));
    assert!(behavior.on_tab_close(&mut tiles, a));
    assert_eq!(behavior.on_tab_close_response(&mut tiles, a), OnCloseResponse::Close);
    assert!(behavior.retain_pane(&Pane(1)));
    assert!(!behavior.preview_dragged_panes());
    assert!(behavior.is_tile_draggable(&tiles, a));
    assert!(behavior.is_container_resizable(&tiles, a));
    behavior.on_edit(egui_tiles::EditAction::TabSelected);
}

#[test]
fn default_legacy_hook_leaves_tiles_alone() {
    let (mut tiles, root, a, b) = tabs_tree_with_two_panes();
    let mut behavior = Defaults;
    assert!(behavior.on_tab_close(&mut tiles, a));
    assert_eq!(tiles.tile_ids(), vec![a, b, root]);
    assert_eq!(tiles.get(a), Some(&Tile::Pane(Pane(1))));
}
