use vstd::prelude::*;

use crate::tiles::{Container, Tabs, Tile, TileId, Tiles};

verus! {

/// The kind of edit that triggered a call to `Behavior::on_edit`.
#[derive(Clone, Debug, PartialEq, Eq, Structural)]
pub enum EditAction {
    /// A tile was resized by dragging or double-clicking a boundary.
    TileResized,
    /// A drag with a tile started.
    TileDragged,
    /// A tile was dropped and its position changed accordingly.
    TileDropped,
    /// A tab was selected by a click, or by hovering a dragged tile over it,
    /// or there was no active tab and one was picked arbitrarily.
    TabSelected,
}

/// Determines what happens to a tab when a user attempts to close it.
#[derive(Copy, Clone, Debug, PartialEq, Eq, Structural)]
pub enum OnCloseResponse {
    /// Closes the tab.
    Close,
    /// Focuses on the tab (does not close): it becomes the active tab of its
    /// parent tab container.
    Focus,
    /// Ignores the close request (does not close).
    Ignore,
}

impl OnCloseResponse {
    /// The response that the legacy boolean close hook stands for.
    pub open spec fn spec_from_legacy_close(close: bool) -> OnCloseResponse {
        if close {
            OnCloseResponse::Close
        } else {
            OnCloseResponse::Ignore
        }
    }

    /// The response that the legacy boolean close hook stands for:
    /// `true` closes the tab, `false` ignores the request.
    pub fn from_legacy_close(close: bool) -> (r: OnCloseResponse)
        ensures
            r == OnCloseResponse::spec_from_legacy_close(close),
    {
        if close {
            OnCloseResponse::Close
        } else {
            OnCloseResponse::Ignore
        }
    }
}

/// The state of the separator between resizable tiles.
#[derive(Clone, Copy, Debug, PartialEq, Eq, Structural)]
pub enum ResizeState {
    /// Neither hovered nor dragged.
    Idle,
    /// The pointer is over the separator.
    Hovering,
    /// The separator is being dragged.
    Dragging,
}

/// The state of a tab, used to inform the rendering of the tab.
#[derive(Clone, Debug)]
pub struct TabState {
    /// Is the tab currently selected?
    pub active: bool,
    /// Is the tab currently being dragged?
    pub is_being_dragged: bool,
    /// Should the tab have a close button?
    pub closable: bool,
}

impl Default for TabState {
    /// An inactive, undragged tab without a close button.
    fn default() -> (s: TabState)
        ensures
            !s.active,
            !s.is_being_dragged,
            !s.closable,
    {
        TabState { active: false, is_being_dragged: false, closable: false }
    }
}

impl TabState {
    /// Is the tab painted this frame? Only when it is on screen and not
    /// being dragged: a dragged tab leaves a gap in the tab bar.
    pub fn is_painted(&self, on_screen: bool) -> (r: bool)
        ensures
            r == (on_screen && !self.is_being_dragged),
    {
        on_screen && !self.is_being_dragged
    }

    /// Does this frame's input ask to close the tab? Only a painted tab with
    /// a close button can be closed, by clicking that button or by
    /// middle-clicking the tab.
    pub fn close_requested(&self, on_screen: bool, close_button_clicked: bool, middle_clicked: bool) -> (r:
        bool)
        ensures
            r == (on_screen && !self.is_being_dragged && self.closable && (close_button_clicked
                || middle_clicked)),
    {
        self.is_painted(on_screen) && self.closable && (close_button_clicked || middle_clicked)
    }
}

/// How the tiles look after `Focus` was answered for `tile_id`, given the
/// tiles before and the parent that was found for it: if that parent is a
/// tab container, `tile_id` is its active tab and nothing else changed;
/// otherwise nothing changed.
pub open spec fn focused<Pane>(
    tiles: Map<TileId, Tile<Pane>>,
    parent: Option<TileId>,
    tile_id: TileId,
) -> Map<TileId, Tile<Pane>> {
    match parent {
        Some(p) => match tiles[p] {
            Tile::Container(Container::Tabs(t)) => tiles.insert(
                p,
                Tile::Container(Container::Tabs(Tabs { children: t.children, active: Some(tile_id) })),
            ),
            _ => tiles,
        },
        None => tiles,
    }
}

/// The legacy close hook's answer decides alone: `true` closes the tab,
/// `false` ignores the request, and neither answer focuses it.
pub proof fn lemma_legacy_close_bridge(close: bool)
    ensures
        (OnCloseResponse::spec_from_legacy_close(close) == OnCloseResponse::Close) == close,
        (OnCloseResponse::spec_from_legacy_close(close) == OnCloseResponse::Ignore) == !close,
        OnCloseResponse::spec_from_legacy_close(close) != OnCloseResponse::Focus,
{
}

/// `Focus` on a tile whose parent `p` is a tab container makes that tile the
/// container's active tab, whatever was active before, and keeps the
/// container's children; every other tile stays as it was, and no tile is
/// added or removed. With a parent that is not a tab container, or no parent
/// at all, `Focus` changes nothing.
pub proof fn lemma_focus_makes_the_tile_active<Pane>(
    tiles: Map<TileId, Tile<Pane>>,
    p: TileId,
    tile_id: TileId,
)
    requires
        tiles.dom().contains(p),
    ensures
        focused(tiles, Some(p), tile_id).dom() == tiles.dom(),
        forall|q: TileId| #[trigger]
            tiles.dom().contains(q) && q != p ==> focused(tiles, Some(p), tile_id)[q] == tiles[q],
        forall|tabs: Tabs|
            tiles[p] == Tile::<Pane>::Container(Container::Tabs(tabs)) ==> (#[trigger] focused(
                tiles,
                Some(p),
                tile_id,
            )[p] matches Tile::Container(Container::Tabs(after)) && after.active == Some(tile_id)
                && after.children == tabs.children),
        !(tiles[p] is Container && tiles[p]->Container_0 is Tabs) ==> focused(tiles, Some(p), tile_id)
            == tiles,
        focused(tiles, None, tile_id) == tiles,
{
    assert(focused(tiles, Some(p), tile_id).dom() =~= tiles.dom());
}

/// Apply the answer to a request to close the tab of `tile_id`:
/// - `Close`: the tile is removed from the tiles. Its parent keeps listing
///   it; clearing that dangling reference is left to a later clean-up.
/// - `Focus`: the tile stays, and becomes the active tab of its parent, if
///   that parent is a tab container; otherwise nothing happens. A tile is
///   never removed on `Focus`.
/// - `Ignore`: nothing happens.
pub fn apply_close_response<Pane>(tiles: &mut Tiles<Pane>, tile_id: TileId, response: OnCloseResponse)
    ensures
        response == OnCloseResponse::Close ==> final(tiles)@ == old(tiles)@.remove(tile_id),
        response == OnCloseResponse::Focus ==> final(tiles)@ == focused(
            old(tiles)@,
            old(tiles).spec_parent_of(tile_id),
            tile_id,
        ) && final(tiles).ids() == old(tiles).ids(),
        response == OnCloseResponse::Focus ==> forall|p: TileId| #[trigger]
            old(tiles)@.dom().contains(p) && old(tiles)@[p].spec_is_parent_of(tile_id) && (forall|q: TileId|
                #[trigger] old(tiles)@.dom().contains(q) && old(tiles)@[q].spec_is_parent_of(tile_id) ==> q
                    == p) ==> final(tiles)@ == focused(old(tiles)@, Some(p), tile_id),
        response == OnCloseResponse::Focus ==> (forall|q: TileId| #[trigger]
            old(tiles)@.dom().contains(q) ==> !old(tiles)@[q].spec_is_parent_of(tile_id)) ==> final(tiles)@
            == old(tiles)@,
        response == OnCloseResponse::Ignore ==> final(tiles)@ == old(tiles)@ && final(tiles).ids()
            == old(tiles).ids(),
        response != OnCloseResponse::Close ==> final(tiles)@.dom() == old(tiles)@.dom(),
        forall|t: TileId| #[trigger]
            final(tiles)@.dom().contains(t) ==> old(tiles)@.dom().contains(t) && (old(tiles)@[t] is Pane
                ==> final(tiles)@[t] == old(tiles)@[t]),
        final(tiles).next_counter() == old(tiles).next_counter(),
{
    match response {
        OnCloseResponse::Close => {
            tiles.remove(tile_id);
        },
        OnCloseResponse::Focus => {
            match tiles.parent_of(tile_id) {
                Some(parent_id) => {
                    match tiles.get_mut(parent_id) {
                        Some(tile) => match tile {
                            Tile::Container(Container::Tabs(tabs)) => {
                                tabs.set_active(tile_id);
                            },
                            _ => {},
                        },
                        None => {},
                    }
                },
                None => {},
            }
        },
        OnCloseResponse::Ignore => {},
    }
}

/// How the tiles of a tree are to be treated: which tabs can close and what
/// a close request does, which tiles can be dragged or resized, which panes
/// to keep, and what to hear about edits. Every method has a default.
pub trait Behavior<Pane> {
    /// Should the tab have a close-button? Default: `false`.
    fn is_tab_closable(&self, _tiles: &Tiles<Pane>, _tile_id: TileId) -> (r: bool)
        default_ensures
            !r,
    {
        false
    }

    /// Called when the close-button on a tab is pressed: return `false` to
    /// abort the closing of the tab (e.g. after showing a message box).
    /// Default: `true`.
    ///
    /// This is the legacy, binary close hook: a custom
    /// [`Self::on_tab_close_response`] supersedes it and need not call it.
    fn on_tab_close(&mut self, _tiles: &mut Tiles<Pane>, _tile_id: TileId) -> (r: bool)
        default_ensures
            r,
            *final(_tiles) == *old(_tiles),
    {
        true
    }

    /// Called when the close-button on a tab is pressed, returning what to do
    /// with the tab (see [`apply_close_response`]).
    ///
    /// The default asks the legacy [`Self::on_tab_close`] hook: `true` closes
    /// the tab and `false` ignores the request, so the default never answers
    /// `Focus`. Which of the two it answers is the hook's to decide, and the
    /// hook has no contract of its own (an implementation may decide by
    /// anything, a dialog included), so only "`Close` or `Ignore`" is stated
    /// here; [`OnCloseResponse::from_legacy_close`] states the mapping.
    fn on_tab_close_response(&mut self, tiles: &mut Tiles<Pane>, tile_id: TileId) -> (r: OnCloseResponse)
        default_ensures
            r == OnCloseResponse::Close || r == OnCloseResponse::Ignore,
            exists|hook_args: (&mut Self, &mut Tiles<Pane>, TileId), close: bool|
                #![trigger call_ensures(Self::on_tab_close, hook_args, close)]
                call_ensures(Self::on_tab_close, hook_args, close) && *hook_args.1 == *old(tiles)
                    && hook_args.2 == tile_id && r == OnCloseResponse::spec_from_legacy_close(close),
    {
        let hook = Self::on_tab_close;
        let close = hook(self, tiles, tile_id);
        OnCloseResponse::from_legacy_close(close)
    }

    /// Return `false` if a given pane should be removed from its parent.
    /// Default: `true`.
    fn retain_pane(&mut self, _pane: &Pane) -> (r: bool)
        default_ensures
            r,
    {
        true
    }

    /// Show panes that are being dragged in the place where they would land?
    /// Default: `false`.
    fn preview_dragged_panes(&self) -> (r: bool)
        default_ensures
            !r,
    {
        false
    }

    /// Can this tile be dragged (by its tab or by its pane)? Default: `true`.
    fn is_tile_draggable(&self, _tiles: &Tiles<Pane>, _tile_id: TileId) -> (r: bool)
        default_ensures
            r,
    {
        true
    }

    /// Can the children of this container be resized by dragging the
    /// separator? Only applies to linear and grid containers. Default: `true`.
    fn is_container_resizable(&self, _tiles: &Tiles<Pane>, _tile_id: TileId) -> (r: bool)
        default_ensures
            r,
    {
        true
    }

    /// Called if the user edits the tree somehow, e.g. changes the size of
    /// some container, clicks a tab, or drags a tile. Default: nothing.
    fn on_edit(&mut self, _edit_action: EditAction) {
    }
}

} // verus!
