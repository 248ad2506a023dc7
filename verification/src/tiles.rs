//! The tile arena: every tile of a layout, keyed by its id.
//!
//! A tile is either a pane (the user's payload) or a container that lists
//! the ids of its children. Containers refer to children by id only, so a
//! removed tile can leave a dangling reference behind in its parent; the
//! arena itself only promises that no two tiles share an id.
use vstd::prelude::*;

verus! {

/// An identifier for a tile in a [`Tiles`] arena.
#[derive(Clone, Copy, Debug, PartialEq, Eq, Hash, Structural)]
pub struct TileId(pub u64);

/// The kind of a container tile.
#[derive(Clone, Copy, Debug, PartialEq, Eq, Structural)]
pub enum ContainerKind {
    /// Children shown one at a time, behind a bar of tabs.
    Tabs,
    /// Children side by side, left to right.
    Horizontal,
    /// Children stacked, top to bottom.
    Vertical,
    /// Children in a grid.
    Grid,
}

/// The direction of a [`Linear`] container.
#[derive(Clone, Copy, Debug, PartialEq, Eq, Structural)]
pub enum LinearDir {
    /// Left to right.
    Horizontal,
    /// Top to bottom.
    Vertical,
}

/// A container of tabs: one child is shown at a time.
#[derive(Clone, Debug, PartialEq, Eq)]
pub struct Tabs {
    /// The tabs, in the order they are shown.
    pub children: Vec<TileId>,
    /// The tab that is shown, if any.
    pub active: Option<TileId>,
}

impl Tabs {
    /// Tabs over `children`, with the first child (if any) active.
    pub fn new(children: Vec<TileId>) -> (t: Tabs)
        ensures
            t.children == children,
            t.active == (if children@.len() > 0 {
                Some(children@[0])
            } else {
                None::<TileId>
            }),
    {
        let active = if children.len() > 0 {
            Some(children[0])
        } else {
            None
        };
        Tabs { children, active }
    }

    /// Make `child` the shown tab.
    pub fn set_active(&mut self, child: TileId)
        ensures
            final(self).children == old(self).children,
            final(self).active == Some(child),
    {
        self.active = Some(child);
    }

    /// Is `child` the shown tab?
    pub fn is_active(&self, child: TileId) -> (r: bool)
        ensures
            r == (self.active == Some(child)),
    {
        match self.active {
            Some(a) => a == child,
            None => false,
        }
    }
}

/// A container laying its children out in a row or a column.
#[derive(Clone, Debug, PartialEq, Eq)]
pub struct Linear {
    /// The direction of the layout.
    pub dir: LinearDir,
    /// The children, in layout order.
    pub children: Vec<TileId>,
}

impl Linear {
    /// A linear container over `children`.
    pub fn new(dir: LinearDir, children: Vec<TileId>) -> (l: Linear)
        ensures
            l.dir == dir,
            l.children == children,
    {
        Linear { dir, children }
    }
}

/// A container laying its children out in a grid. A cell may be empty: a
/// child dragged out of a grid leaves a hole behind on purpose.
#[derive(Clone, Debug, PartialEq, Eq)]
pub struct Grid {
    /// The cells, in row-major order.
    pub children: Vec<Option<TileId>>,
}

impl Grid {
    /// A grid with one filled cell per child, in order.
    pub fn new(children: Vec<TileId>) -> (g: Grid)
        ensures
            g.children@ == children@.map_values(|c: TileId| Some(c)),
    {
        let mut cells: Vec<Option<TileId>> = Vec::new();
        let n = children.len();
        let mut i: usize = 0;
        while i < n
            invariant
                n == children@.len(),
                i <= n,
                cells@.len() == i,
                forall|k: int| 0 <= k < i ==> cells@[k] == Some(children@[k]),
            decreases n - i,
        {
            cells.push(Some(children[i]));
            i += 1;
        }
        assert(cells@ =~= children@.map_values(|c: TileId| Some(c)));
        Grid { children: cells }
    }
}

/// The filled cells of a grid, in order.
pub open spec fn filled_cells(cells: Seq<Option<TileId>>) -> Seq<TileId>
    decreases cells.len(),
{
    if cells.len() == 0 {
        Seq::empty()
    } else {
        let rest = filled_cells(cells.drop_last());
        match cells.last() {
            Some(c) => rest.push(c),
            None => rest,
        }
    }
}

/// A tile that holds other tiles.
#[derive(Clone, Debug, PartialEq, Eq)]
pub enum Container {
    /// A tab container.
    Tabs(Tabs),
    /// A horizontal or vertical container.
    Linear(Linear),
    /// A grid container.
    Grid(Grid),
}

impl Container {
    /// The kind of this container.
    pub open spec fn spec_kind(&self) -> ContainerKind {
        match self {
            Container::Tabs(_) => ContainerKind::Tabs,
            Container::Linear(l) => match l.dir {
                LinearDir::Horizontal => ContainerKind::Horizontal,
                LinearDir::Vertical => ContainerKind::Vertical,
            },
            Container::Grid(_) => ContainerKind::Grid,
        }
    }

    /// The children of this container, in order (a grid's holes skipped).
    pub open spec fn spec_children(&self) -> Seq<TileId> {
        match self {
            Container::Tabs(t) => t.children@,
            Container::Linear(l) => l.children@,
            Container::Grid(g) => filled_cells(g.children@),
        }
    }

    /// Does this container list `child` among its children?
    pub open spec fn spec_has_child(&self, child: TileId) -> bool {
        match self {
            Container::Tabs(t) => t.children@.contains(child),
            Container::Linear(l) => l.children@.contains(child),
            Container::Grid(g) => g.children@.contains(Some(child)),
        }
    }

    /// The kind of this container.
    pub fn kind(&self) -> (k: ContainerKind)
        ensures
            k == self.spec_kind(),
    {
        match self {
            Container::Tabs(_) => ContainerKind::Tabs,
            Container::Linear(l) => match l.dir {
                LinearDir::Horizontal => ContainerKind::Horizontal,
                LinearDir::Vertical => ContainerKind::Vertical,
            },
            Container::Grid(_) => ContainerKind::Grid,
        }
    }

    /// Does this container list `child` among its children?
    pub fn has_child(&self, child: TileId) -> (r: bool)
        ensures
            r == self.spec_has_child(child),
    {
        match self {
            Container::Tabs(t) => ids_contain(&t.children, child),
            Container::Linear(l) => ids_contain(&l.children, child),
            Container::Grid(g) => cells_contain(&g.children, child),
        }
    }

    /// The children of this container, in order (a grid's holes skipped).
    pub fn children_vec(&self) -> (r: Vec<TileId>)
        ensures
            r@ == self.spec_children(),
    {
        match self {
            Container::Tabs(t) => copy_ids(&t.children),
            Container::Linear(l) => copy_ids(&l.children),
            Container::Grid(g) => {
                let n = g.children.len();
                let mut out: Vec<TileId> = Vec::new();
                let mut i: usize = 0;
                while i < n
                    invariant
                        n == g.children@.len(),
                        i <= n,
                        out@ == filled_cells(g.children@.take(i as int)),
                    decreases n - i,
                {
                    proof {
                        assert(g.children@.take(i + 1).drop_last() =~= g.children@.take(i as int));
                    }
                    match g.children[i] {
                        Some(c) => out.push(c),
                        None => {},
                    }
                    i += 1;
                }
                proof {
                    assert(g.children@.take(n as int) =~= g.children@);
                }
                out
            },
        }
    }
}

/// A grid's filled cells are exactly the tiles in its cells.
pub proof fn lemma_filled_cells_contains(cells: Seq<Option<TileId>>, child: TileId)
    ensures
        filled_cells(cells).contains(child) <==> cells.contains(Some(child)),
    decreases cells.len(),
{
    if cells.len() == 0 {
        assert(filled_cells(cells) =~= Seq::<TileId>::empty());
        assert(!cells.contains(Some(child)));
    } else {
        let last = cells.len() - 1;
        let init = cells.drop_last();
        let rest = filled_cells(init);
        lemma_filled_cells_contains(init, child);
        assert(cells[last] == cells.last());
        assert(forall|k: int| 0 <= k < init.len() ==> init[k] == cells[k]);
        if init.contains(Some(child)) {
            let k = choose|k: int| 0 <= k < init.len() && init[k] == Some(child);
            assert(cells[k] == Some(child));
        }
        if cells.contains(Some(child)) {
            let k = choose|k: int| 0 <= k < cells.len() && cells[k] == Some(child);
            if k < last {
                assert(init[k] == Some(child));
            }
        }
        match cells.last() {
            Some(c) => {
                let f = rest.push(c);
                assert(filled_cells(cells) == f);
                assert(f[rest.len() as int] == c);
                if rest.contains(child) {
                    let k = choose|k: int| 0 <= k < rest.len() && rest[k] == child;
                    assert(f[k] == child);
                }
                if f.contains(child) {
                    let k = choose|k: int| 0 <= k < f.len() && f[k] == child;
                    if k < rest.len() {
                        assert(rest[k] == child);
                    }
                }
            },
            None => {
                assert(filled_cells(cells) == rest);
            },
        }
    }
}

/// What a container holds: a tab or linear container's children are exactly
/// its list of children, in order, whatever the direction of a linear one; a
/// grid's children are exactly the tiles in its cells; and a container has
/// a child exactly when that child is among its children.
pub proof fn lemma_container_children(c: Container, child: TileId)
    ensures
        c.spec_has_child(child) <==> c.spec_children().contains(child),
        match c {
            Container::Tabs(t) => c.spec_children() == t.children@ && (c.spec_has_child(child)
                <==> t.children@.contains(child)),
            Container::Linear(l) => c.spec_children() == l.children@ && (c.spec_has_child(child)
                <==> l.children@.contains(child)),
            Container::Grid(g) => (c.spec_children().contains(child) <==> g.children@.contains(
                Some(child),
            )) && (c.spec_has_child(child) <==> g.children@.contains(Some(child))),
        },
{
    match c {
        Container::Grid(g) => {
            lemma_filled_cells_contains(g.children@, child);
        },
        _ => {},
    }
}

/// Does `ids` hold `id`?
fn ids_contain(ids: &Vec<TileId>, id: TileId) -> (r: bool)
    ensures
        r == ids@.contains(id),
{
    let n = ids.len();
    let mut i: usize = 0;
    while i < n
        invariant
            n == ids@.len(),
            i <= n,
            forall|k: int| 0 <= k < i ==> ids@[k] != id,
        decreases n - i,
    {
        if ids[i] == id {
            return true;
        }
        i += 1;
    }
    false
}

/// Does some cell of `cells` hold `id`?
fn cells_contain(cells: &Vec<Option<TileId>>, id: TileId) -> (r: bool)
    ensures
        r == cells@.contains(Some(id)),
{
    let n = cells.len();
    let mut i: usize = 0;
    while i < n
        invariant
            n == cells@.len(),
            i <= n,
            forall|k: int| 0 <= k < i ==> cells@[k] != Some(id),
        decreases n - i,
    {
        match cells[i] {
            Some(c) => {
                if c == id {
                    assert(cells@[i as int] == Some(id));
                    return true;
                }
            },
            None => {},
        }
        i += 1;
    }
    false
}

/// A copy of `ids`.
fn copy_ids(ids: &Vec<TileId>) -> (r: Vec<TileId>)
    ensures
        r@ == ids@,
{
    let n = ids.len();
    let mut out: Vec<TileId> = Vec::new();
    let mut i: usize = 0;
    while i < n
        invariant
            n == ids@.len(),
            i <= n,
            out@ == ids@.take(i as int),
        decreases n - i,
    {
        out.push(ids[i]);
        proof {
            assert(out@ =~= ids@.take(i + 1));
        }
        i += 1;
    }
    proof {
        assert(ids@.take(n as int) =~= ids@);
    }
    out
}

/// A tile: a pane holding the user's payload, or a container of tiles.
#[derive(Clone, Debug, PartialEq, Eq)]
pub enum Tile<Pane> {
    /// A leaf, holding a pane.
    Pane(Pane),
    /// A container of other tiles.
    Container(Container),
}

impl<Pane> Tile<Pane> {
    /// Is this tile a container that lists `child`?
    pub open spec fn spec_is_parent_of(&self, child: TileId) -> bool {
        match self {
            Tile::Container(c) => c.spec_has_child(child),
            Tile::Pane(_) => false,
        }
    }

    /// Is this tile a container that lists `child`?
    pub fn is_parent_of(&self, child: TileId) -> (r: bool)
        ensures
            r == self.spec_is_parent_of(child),
    {
        match self {
            Tile::Container(c) => c.has_child(child),
            Tile::Pane(_) => false,
        }
    }

    /// Is this tile a pane?
    pub fn is_pane(&self) -> (r: bool)
        ensures
            r == (self is Pane),
    {
        match self {
            Tile::Pane(_) => true,
            Tile::Container(_) => false,
        }
    }

    /// Is this tile a container?
    pub fn is_container(&self) -> (r: bool)
        ensures
            r == (self is Container),
    {
        match self {
            Tile::Pane(_) => false,
            Tile::Container(_) => true,
        }
    }
}

/// An arena entry: a tile and its id.
type Entry<Pane> = (TileId, Tile<Pane>);

/// Is `id` the id of some entry of `s`?
spec fn seq_has_id<Pane>(s: Seq<Entry<Pane>>, id: TileId) -> bool {
    exists|i: int| 0 <= i < s.len() && #[trigger] s[i].0 == id
}

/// No two entries of `s` share an id.
spec fn seq_unique<Pane>(s: Seq<Entry<Pane>>) -> bool {
    forall|i: int, j: int| 0 <= i < s.len() && 0 <= j < s.len() && i != j ==> s[i].0 != s[j].0
}

/// The entries of `s` as a map from id to tile.
spec fn seq_map<Pane>(s: Seq<Entry<Pane>>) -> Map<TileId, Tile<Pane>> {
    Map::new(
        |id: TileId| seq_has_id(s, id),
        |id: TileId| s[choose|i: int| 0 <= i < s.len() && #[trigger] s[i].0 == id].1,
    )
}

/// The ids of the entries of `s`, in order.
spec fn seq_ids<Pane>(s: Seq<Entry<Pane>>) -> Seq<TileId> {
    s.map_values(|e: Entry<Pane>| e.0)
}

proof fn lemma_seq_map_at<Pane>(s: Seq<Entry<Pane>>, i: int)
    requires
        seq_unique(s),
        0 <= i < s.len(),
    ensures
        seq_map(s).dom().contains(s[i].0),
        seq_map(s)[s[i].0] == s[i].1,
{
    assert(seq_has_id(s, s[i].0));
    let j = choose|j: int| 0 <= j < s.len() && #[trigger] s[j].0 == s[i].0;
    assert(j == i);
}

proof fn lemma_seq_map_push<Pane>(s: Seq<Entry<Pane>>, id: TileId, t: Tile<Pane>)
    requires
        seq_unique(s),
        !seq_has_id(s, id),
    ensures
        seq_unique(s.push((id, t))),
        seq_map(s.push((id, t))) == seq_map(s).insert(id, t),
        seq_ids(s.push((id, t))) == seq_ids(s).push(id),
{
    let s2 = s.push((id, t));
    assert(seq_unique(s2)) by {
        assert forall|i: int, j: int| 0 <= i < s2.len() && 0 <= j < s2.len() && i != j implies s2[i].0
            != s2[j].0 by {
            if i == s.len() {
                assert(s[j].0 == s2[j].0);
            } else if j == s.len() {
                assert(s[i].0 == s2[i].0);
            }
        }
    }
    assert forall|k: TileId| #[trigger] seq_map(s2).dom().contains(k) <==> seq_map(s).insert(id, t).dom().contains(k) by {
        if seq_has_id(s, k) {
            let i = choose|i: int| 0 <= i < s.len() && #[trigger] s[i].0 == k;
            assert(s2[i].0 == k);
        }
        if seq_has_id(s2, k) && k != id {
            let i = choose|i: int| 0 <= i < s2.len() && #[trigger] s2[i].0 == k;
            assert(s[i].0 == k);
        }
        if k == id {
            assert(s2[s.len() as int].0 == id);
        }
    }
    assert forall|k: TileId| #[trigger] seq_map(s2).dom().contains(k) implies seq_map(s2)[k] == seq_map(s).insert(id, t)[k] by {
        if k == id {
            lemma_seq_map_at(s2, s.len() as int);
        } else {
            let i = choose|i: int| 0 <= i < s2.len() && #[trigger] s2[i].0 == k;
            lemma_seq_map_at(s2, i);
            lemma_seq_map_at(s, i);
        }
    }
    assert(seq_map(s2) =~= seq_map(s).insert(id, t));
    assert(seq_ids(s2) =~= seq_ids(s).push(id));
}

proof fn lemma_seq_map_update<Pane>(s: Seq<Entry<Pane>>, i: int, t: Tile<Pane>)
    requires
        seq_unique(s),
        0 <= i < s.len(),
    ensures
        seq_unique(s.update(i, (s[i].0, t))),
        seq_map(s.update(i, (s[i].0, t))) == seq_map(s).insert(s[i].0, t),
        seq_ids(s.update(i, (s[i].0, t))) == seq_ids(s),
{
    let id = s[i].0;
    let s2 = s.update(i, (id, t));
    assert(forall|j: int| 0 <= j < s.len() ==> #[trigger] s2[j].0 == s[j].0);
    assert forall|k: TileId| #[trigger] seq_map(s2).dom().contains(k) <==> seq_map(s).insert(id, t).dom().contains(k) by {
        if seq_has_id(s, k) {
            let j = choose|j: int| 0 <= j < s.len() && #[trigger] s[j].0 == k;
            assert(s2[j].0 == k);
        }
        if seq_has_id(s2, k) {
            let j = choose|j: int| 0 <= j < s2.len() && #[trigger] s2[j].0 == k;
            assert(s[j].0 == k);
        }
        if k == id {
            assert(s2[i].0 == id);
        }
    }
    assert forall|k: TileId| #[trigger] seq_map(s2).dom().contains(k) implies seq_map(s2)[k] == seq_map(s).insert(id, t)[k] by {
        let j = choose|j: int| 0 <= j < s2.len() && #[trigger] s2[j].0 == k;
        lemma_seq_map_at(s2, j);
        lemma_seq_map_at(s, j);
    }
    assert(seq_map(s2) =~= seq_map(s).insert(id, t));
    assert(seq_ids(s2) =~= seq_ids(s));
}

proof fn lemma_seq_map_remove<Pane>(s: Seq<Entry<Pane>>, i: int)
    requires
        seq_unique(s),
        0 <= i < s.len(),
    ensures
        seq_unique(s.remove(i)),
        seq_map(s.remove(i)) == seq_map(s).remove(s[i].0),
        seq_ids(s.remove(i)) == seq_ids(s).remove(i),
{
    let id = s[i].0;
    let s2 = s.remove(i);
    assert(forall|j: int| 0 <= j < i ==> #[trigger] s2[j] == s[j]);
    assert(forall|j: int| i <= j < s2.len() ==> #[trigger] s2[j] == s[j + 1]);
    assert(seq_unique(s2)) by {
        assert forall|a: int, b: int| 0 <= a < s2.len() && 0 <= b < s2.len() && a != b implies s2[a].0
            != s2[b].0 by {
            let a1 = if a < i { a } else { a + 1 };
            let b1 = if b < i { b } else { b + 1 };
            assert(s2[a] == s[a1]);
            assert(s2[b] == s[b1]);
        }
    }
    assert forall|k: TileId| #[trigger] seq_map(s2).dom().contains(k) <==> seq_map(s).remove(id).dom().contains(k) by {
        if seq_has_id(s, k) && k != id {
            let j = choose|j: int| 0 <= j < s.len() && #[trigger] s[j].0 == k;
            assert(j != i);
            let j2 = if j < i { j } else { j - 1 };
            assert(s2[j2].0 == k);
        }
        if seq_has_id(s2, k) {
            let j = choose|j: int| 0 <= j < s2.len() && #[trigger] s2[j].0 == k;
            let j1 = if j < i { j } else { j + 1 };
            assert(s[j1].0 == k);
            assert(j1 != i);
        }
    }
    assert forall|k: TileId| #[trigger] seq_map(s2).dom().contains(k) implies seq_map(s2)[k] == seq_map(s).remove(id)[k] by {
        let j = choose|j: int| 0 <= j < s2.len() && #[trigger] s2[j].0 == k;
        let j1 = if j < i { j } else { j + 1 };
        lemma_seq_map_at(s2, j);
        lemma_seq_map_at(s, j1);
    }
    assert(seq_map(s2) =~= seq_map(s).remove(id));
    assert(seq_ids(s2) =~= seq_ids(s).remove(i));
}

/// The index of `id` in `ids`, if it occurs there.
fn find_id(ids: &Vec<TileId>, id: TileId) -> (r: Option<usize>)
    ensures
        r matches Some(i) ==> i < ids@.len() && ids@[i as int] == id,
        r is None ==> !ids@.contains(id),
{
    let n = ids.len();
    let mut i: usize = 0;
    while i < n
        invariant
            n == ids@.len(),
            i <= n,
            forall|k: int| 0 <= k < i ==> ids@[k] != id,
        decreases n - i,
    {
        if ids[i] == id {
            return Some(i);
        }
        i += 1;
    }
    None
}

/// The storage of an arena: ids and tiles side by side.
#[derive(Debug)]
struct Arena<Pane> {
    ids: Vec<TileId>,
    tiles: Vec<Tile<Pane>>,
}

impl<Pane> Arena<Pane> {
    /// The entries, pairing each id with the tile beside it.
    spec fn entries(&self) -> Seq<Entry<Pane>> {
        Seq::new(self.ids@.len(), |i: int| (self.ids@[i], self.tiles@[i]))
    }

    /// As many tiles as ids, and no id twice.
    spec fn wf(&self) -> bool {
        &&& self.ids@.len() == self.tiles@.len()
        &&& seq_unique(self.entries())
    }

    proof fn lemma_entries(&self)
        requires
            self.ids@.len() == self.tiles@.len(),
        ensures
            seq_ids(self.entries()) == self.ids@,
            forall|id: TileId| seq_has_id(self.entries(), id) <==> self.ids@.contains(id),
    {
        let s = self.entries();
        assert(seq_ids(s) =~= self.ids@);
        assert forall|id: TileId| seq_has_id(s, id) <==> self.ids@.contains(id) by {
            if self.ids@.contains(id) {
                let j = choose|j: int| 0 <= j < self.ids@.len() && self.ids@[j] == id;
                assert(s[j].0 == id);
            }
        }
    }
}

/// All the tiles of a layout, keyed by id.
///
/// Ids are handed out from a counter that only moves forward, so a removed
/// tile's id is not reused while the counter is kept.
///
/// The arena is a map from id to tile, and its view is that map. It is kept
/// as two lists side by side, ids and tiles, in the order of insertion,
/// rather than as a hash map: every operation here is then specified exactly
/// and proved through `Vec`'s own specification, and the order is part of
/// the model. Where a hash map's walk would pick an arbitrary tile (the
/// parent of a child that two containers list), this arena picks the first
/// in that order; for a well-formed tree, where a tile has one parent at
/// most, the two agree.
#[derive(Debug)]
pub struct Tiles<Pane> {
    arena: Arena<Pane>,
    next_tile_id: u64,
}

impl<Pane> View for Tiles<Pane> {
    type V = Map<TileId, Tile<Pane>>;

    /// The tiles, keyed by id.
    closed spec fn view(&self) -> Map<TileId, Tile<Pane>> {
        seq_map(self.arena.entries())
    }
}

impl<Pane> Tiles<Pane> {
    #[verifier::type_invariant]
    spec fn ids_are_unique(self) -> bool {
        self.arena.wf()
    }

    /// The ids of the tiles, in the arena's order (the order of insertion).
    pub closed spec fn ids(&self) -> Seq<TileId> {
        self.arena.ids@
    }

    /// The counter that fresh ids are taken from.
    pub closed spec fn next_counter(&self) -> u64 {
        self.next_tile_id
    }

    /// Some id at or after the counter, short of the largest id, is still
    /// free, so a fresh id can be handed out and the counter moved past it.
    pub open spec fn has_free_id(&self) -> bool {
        exists|k: u64| self.next_counter() <= k < u64::MAX && !#[trigger] self@.dom().contains(TileId(k))
    }

    /// `id` is the first id, at or after the counter, that no tile has: the
    /// id that the next insertion takes.
    pub open spec fn is_first_free_id(&self, id: TileId) -> bool {
        &&& self.next_counter() <= id.0
        &&& !self@.dom().contains(id)
        &&& forall|k: u64| self.next_counter() <= k < id.0 ==> #[trigger] self@.dom().contains(TileId(k))
    }

    /// The first tile, in the arena's order, that is a container listing
    /// `child`; `None` if no tile lists it.
    pub open spec fn spec_parent_of(&self, child: TileId) -> Option<TileId> {
        if exists|i: int| 0 <= i < self.ids().len() && #[trigger] self@[self.ids()[i]].spec_is_parent_of(child) {
            let i = choose|i: int|
                0 <= i < self.ids().len() && #[trigger] self@[self.ids()[i]].spec_is_parent_of(child)
                    && forall|k: int| 0 <= k < i ==> !self@[self.ids()[k]].spec_is_parent_of(child);
            Some(self.ids()[i])
        } else {
            None
        }
    }

    /// An empty arena, whose first fresh id is 1.
    pub fn new() -> (t: Tiles<Pane>)
        ensures
            t@ == Map::<TileId, Tile<Pane>>::empty(),
            t.ids() == Seq::<TileId>::empty(),
            t.next_counter() == 1,
    {
        let arena = Arena { ids: Vec::new(), tiles: Vec::new() };
        assert(arena.entries() =~= Seq::<Entry<Pane>>::empty());
        let t = Tiles { arena, next_tile_id: 1 };
        assert(t@ =~= Map::<TileId, Tile<Pane>>::empty());
        t
    }

    /// The number of tiles.
    pub fn len(&self) -> (n: usize)
        ensures
            n == self.ids().len(),
    {
        self.arena.ids.len()
    }

    /// Are there no tiles at all?
    pub fn is_empty(&self) -> (r: bool)
        ensures
            r == (self.ids().len() == 0),
    {
        self.arena.ids.len() == 0
    }

    /// The ids of all tiles, in the arena's order; each id occurs once, and
    /// exactly the ids of the tiles occur.
    pub fn tile_ids(&self) -> (r: Vec<TileId>)
        ensures
            r@ == self.ids(),
            r@.no_duplicates(),
            forall|id: TileId| #[trigger] self@.dom().contains(id) <==> r@.contains(id),
    {
        proof {
            use_type_invariant(self);
            self.arena.lemma_entries();
            let s = self.arena.entries();
            assert forall|a: int, b: int| 0 <= a < self.ids().len() && 0 <= b < self.ids().len() && a != b implies self.ids()[a]
                != self.ids()[b] by {
                assert(s[a].0 == self.ids()[a]);
                assert(s[b].0 == self.ids()[b]);
            }
        }
        copy_ids(&self.arena.ids)
    }

    /// The tile with id `id`, if there is one.
    pub fn get(&self, id: TileId) -> (r: Option<&Tile<Pane>>)
        ensures
            r is None <==> !self@.dom().contains(id),
            r matches Some(t) ==> *t == self@[id],
    {
        proof {
            use_type_invariant(self);
            self.arena.lemma_entries();
        }
        match find_id(&self.arena.ids, id) {
            Some(i) => {
                proof {
                    lemma_seq_map_at(self.arena.entries(), i as int);
                }
                Some(&self.arena.tiles[i])
            },
            None => None,
        }
    }

    /// The tile with id `id`, to change in place, if there is one. Only the
    /// tile can change through it: its id and its place in the order stay.
    pub fn get_mut(&mut self, id: TileId) -> (r: Option<&mut Tile<Pane>>)
        ensures
            r is None <==> !old(self)@.dom().contains(id),
            r is None ==> final(self)@ == old(self)@,
            r matches Some(t) ==> *t == old(self)@[id] && final(self)@ == old(self)@.insert(id, *final(t)),
            final(self).ids() == old(self).ids(),
            final(self).next_counter() == old(self).next_counter(),
    {
        proof {
            use_type_invariant(&*self);
            self.arena.lemma_entries();
        }
        let ghost s = self.arena.entries();
        match find_id(&self.arena.ids, id) {
            Some(i) => {
                proof {
                    lemma_seq_map_at(s, i as int);
                    assert forall|t: Tile<Pane>| #[trigger] s.update(i as int, (id, t)) =~= Seq::new(
                        s.len(),
                        |k: int| (self.arena.ids@[k], self.arena.tiles@.update(i as int, t)[k]),
                    ) by {}
                }
                let r = &mut self.arena.tiles[i];
                proof {
                    lemma_seq_map_update(s, i as int, *final(r));
                }
                Some(r)
            },
            None => None,
        }
    }

    /// Put `tile` under `id`, replacing the tile that had that id (which keeps
    /// its place in the order); a new id goes last.
    pub fn insert(&mut self, id: TileId, tile: Tile<Pane>)
        ensures
            final(self)@ == old(self)@.insert(id, tile),
            final(self).ids() == (if old(self)@.dom().contains(id) {
                old(self).ids()
            } else {
                old(self).ids().push(id)
            }),
            final(self).next_counter() == old(self).next_counter(),
    {
        proof {
            use_type_invariant(&*self);
            self.arena.lemma_entries();
        }
        let mut arena = Arena { ids: Vec::new(), tiles: Vec::new() };
        proof {
            assert(arena.entries() =~= Seq::<Entry<Pane>>::empty());
        }
        std::mem::swap(&mut arena, &mut self.arena);
        let ghost s = arena.entries();
        match find_id(&arena.ids, id) {
            Some(i) => {
                proof {
                    lemma_seq_map_update(s, i as int, tile);
                    lemma_seq_map_at(s, i as int);
                }
                arena.tiles.set(i, tile);
                proof {
                    assert(arena.entries() =~= s.update(i as int, (id, tile)));
                }
            },
            None => {
                proof {
                    lemma_seq_map_push(s, id, tile);
                }
                arena.ids.push(id);
                arena.tiles.push(tile);
                proof {
                    assert(arena.entries() =~= s.push((id, tile)));
                }
            },
        }
        self.arena = arena;
    }

    /// Take the tile with id `id` out of the arena, if there is one. A
    /// container that lists it keeps listing it.
    pub fn remove(&mut self, id: TileId) -> (r: Option<Tile<Pane>>)
        ensures
            final(self)@ == old(self)@.remove(id),
            r is None <==> !old(self)@.dom().contains(id),
            r matches Some(t) ==> t == old(self)@[id],
            r is None ==> final(self).ids() == old(self).ids(),
            r is Some ==> exists|i: int|
                0 <= i < old(self).ids().len() && old(self).ids()[i] == id && final(self).ids()
                    == old(self).ids().remove(i),
            final(self).next_counter() == old(self).next_counter(),
    {
        proof {
            use_type_invariant(&*self);
            self.arena.lemma_entries();
        }
        let mut arena = Arena { ids: Vec::new(), tiles: Vec::new() };
        proof {
            assert(arena.entries() =~= Seq::<Entry<Pane>>::empty());
        }
        std::mem::swap(&mut arena, &mut self.arena);
        let ghost s = arena.entries();
        let ghost mut at: int = 0;
        let r = match find_id(&arena.ids, id) {
            Some(i) => {
                proof {
                    at = i as int;
                    lemma_seq_map_remove(s, i as int);
                    lemma_seq_map_at(s, i as int);
                }
                arena.ids.remove(i);
                let tile = arena.tiles.remove(i);
                proof {
                    assert(arena.entries() =~= s.remove(i as int));
                }
                Some(tile)
            },
            None => {
                proof {
                    assert(seq_map(s).remove(id) =~= seq_map(s));
                }
                None
            },
        };
        self.arena = arena;
        proof {
            if r is Some {
                assert(old(self).ids()[at] == id && self.ids() == old(self).ids().remove(at));
            }
        }
        r
    }

    /// Take a fresh id: the first id at or after the counter that no tile
    /// has. The counter moves past it; the tiles are unchanged.
    pub fn next_free_id(&mut self) -> (id: TileId)
        requires
            old(self).has_free_id(),
        ensures
            old(self).is_first_free_id(id),
            final(self).next_counter() == id.0 + 1,
            final(self)@ == old(self)@,
            final(self).ids() == old(self).ids(),
    {
        proof {
            use_type_invariant(&*self);
        }
        let mut id: u64 = self.next_tile_id;
        while self.get(TileId(id)).is_some()
            invariant
                *self == *old(self),
                old(self).next_counter() <= id,
                forall|k: u64| old(self).next_counter() <= k < id ==> #[trigger] old(self)@.dom().contains(TileId(k)),
                exists|k: u64| id <= k < u64::MAX && !#[trigger] old(self)@.dom().contains(TileId(k)),
            decreases u64::MAX - id,
        {
            assert(id < u64::MAX);
            id = id + 1;
        }
        self.next_tile_id = id + 1;
        TileId(id)
    }

    /// Put `tile` in the arena under a fresh id, and return that id.
    pub fn insert_new(&mut self, tile: Tile<Pane>) -> (id: TileId)
        requires
            old(self).has_free_id(),
        ensures
            old(self).is_first_free_id(id),
            final(self).next_counter() == id.0 + 1,
            final(self)@ == old(self)@.insert(id, tile),
            final(self).ids() == old(self).ids().push(id),
    {
        let id = self.next_free_id();
        self.insert(id, tile);
        id
    }

    /// Can a fresh id still be handed out? Tells exactly whether
    /// [`Self::has_free_id`] holds, i.e. whether the insertions may be called.
    pub fn can_insert(&self) -> (r: bool)
        ensures
            r == self.has_free_id(),
    {
        let mut id: u64 = self.next_tile_id;
        while id < u64::MAX && self.get(TileId(id)).is_some()
            invariant
                self.next_counter() <= id,
                forall|k: u64| self.next_counter() <= k < id ==> #[trigger] self@.dom().contains(TileId(k)),
            decreases u64::MAX - id,
        {
            id = id + 1;
        }
        if id < u64::MAX {
            assert(!self@.dom().contains(TileId(id)));
            true
        } else {
            assert(!self.has_free_id()) by {
                assert forall|k: u64| self.next_counter() <= k < u64::MAX implies #[trigger] self@.dom().contains(
                    TileId(k),
                ) by {}
            }
            false
        }
    }

    /// Put `tile` in the arena under a fresh id and return that id, if a
    /// fresh id can still be handed out; otherwise change nothing.
    pub fn try_insert_new(&mut self, tile: Tile<Pane>) -> (r: Option<TileId>)
        ensures
            r is None <==> !old(self).has_free_id(),
            r is None ==> final(self)@ == old(self)@ && final(self).ids() == old(self).ids()
                && final(self).next_counter() == old(self).next_counter(),
            r matches Some(id) ==> old(self).is_first_free_id(id) && final(self).next_counter() == id.0 + 1
                && final(self)@ == old(self)@.insert(id, tile) && final(self).ids() == old(self).ids().push(
                id,
            ),
    {
        if self.can_insert() {
            Some(self.insert_new(tile))
        } else {
            None
        }
    }

    /// Put a pane in the arena under a fresh id.
    pub fn insert_pane(&mut self, pane: Pane) -> (id: TileId)
        requires
            old(self).has_free_id(),
        ensures
            old(self).is_first_free_id(id),
            final(self)@ == old(self)@.insert(id, Tile::Pane(pane)),
            final(self).ids() == old(self).ids().push(id),
            final(self).next_counter() == id.0 + 1,
    {
        self.insert_new(Tile::Pane(pane))
    }

    /// Put a container in the arena under a fresh id.
    pub fn insert_container(&mut self, container: Container) -> (id: TileId)
        requires
            old(self).has_free_id(),
        ensures
            old(self).is_first_free_id(id),
            final(self)@ == old(self)@.insert(id, Tile::Container(container)),
            final(self).ids() == old(self).ids().push(id),
            final(self).next_counter() == id.0 + 1,
    {
        self.insert_new(Tile::Container(container))
    }

    /// Put a tab container over `children` in the arena under a fresh id;
    /// its first child (if any) is the active tab.
    pub fn insert_tab_tile(&mut self, children: Vec<TileId>) -> (id: TileId)
        requires
            old(self).has_free_id(),
        ensures
            old(self).is_first_free_id(id),
            final(self)@ == old(self)@.insert(id, Tile::Container(Container::Tabs(Tabs {
                children,
                active: if children@.len() > 0 { Some(children@[0]) } else { None },
            }))),
            final(self).ids() == old(self).ids().push(id),
            final(self).next_counter() == id.0 + 1,
    {
        self.insert_container(Container::Tabs(Tabs::new(children)))
    }

    /// Put a left-to-right container over `children` in the arena under a
    /// fresh id.
    pub fn insert_horizontal_tile(&mut self, children: Vec<TileId>) -> (id: TileId)
        requires
            old(self).has_free_id(),
        ensures
            old(self).is_first_free_id(id),
            final(self)@ == old(self)@.insert(id, Tile::Container(Container::Linear(Linear {
                dir: LinearDir::Horizontal,
                children,
            }))),
            final(self).ids() == old(self).ids().push(id),
            final(self).next_counter() == id.0 + 1,
    {
        self.insert_container(Container::Linear(Linear::new(LinearDir::Horizontal, children)))
    }

    /// Put a top-to-bottom container over `children` in the arena under a
    /// fresh id.
    pub fn insert_vertical_tile(&mut self, children: Vec<TileId>) -> (id: TileId)
        requires
            old(self).has_free_id(),
        ensures
            old(self).is_first_free_id(id),
            final(self)@ == old(self)@.insert(id, Tile::Container(Container::Linear(Linear {
                dir: LinearDir::Vertical,
                children,
            }))),
            final(self).ids() == old(self).ids().push(id),
            final(self).next_counter() == id.0 + 1,
    {
        self.insert_container(Container::Linear(Linear::new(LinearDir::Vertical, children)))
    }

    /// Put a grid over `children` (one filled cell each, in order) in the
    /// arena under a fresh id.
    pub fn insert_grid_tile(&mut self, children: Vec<TileId>) -> (id: TileId)
        requires
            old(self).has_free_id(),
        ensures
            old(self).is_first_free_id(id),
            final(self)@.dom() == old(self)@.dom().insert(id),
            forall|k: TileId| k != id && #[trigger] old(self)@.dom().contains(k) ==> final(self)@[k] == old(self)@[k],
            final(self)@[id] matches Tile::Container(Container::Grid(g)) && g.children@ == children@.map_values(
                |c: TileId| Some(c),
            ),
            final(self).ids() == old(self).ids().push(id),
            final(self).next_counter() == id.0 + 1,
    {
        let g = Grid::new(children);
        self.insert_container(Container::Grid(g))
    }

    /// The first tile, in the arena's order, that is a container listing
    /// `child`. In a well-formed tree a tile has at most one parent, and then
    /// this is that parent.
    pub fn parent_of(&self, child: TileId) -> (r: Option<TileId>)
        ensures
            r == self.spec_parent_of(child),
            r is None <==> (forall|p: TileId|
                #[trigger] self@.dom().contains(p) ==> !self@[p].spec_is_parent_of(child)),
            r matches Some(p) ==> self@.dom().contains(p) && self@[p].spec_is_parent_of(child),
    {
        proof {
            use_type_invariant(self);
            self.arena.lemma_entries();
        }
        let ghost s = self.arena.entries();
        let n = self.arena.tiles.len();
        let mut i: usize = 0;
        while i < n
            invariant
                s == self.arena.entries(),
                self.arena.wf(),
                seq_unique(s),
                n == s.len(),
                i <= n,
                forall|k: int| 0 <= k < i ==> !(#[trigger] s[k]).1.spec_is_parent_of(child),
            decreases n - i,
        {
            if self.arena.tiles[i].is_parent_of(child) {
                proof {
                    let ids = self.ids();
                    assert forall|k: int| 0 <= k < ids.len() implies ids[k] == s[k].0 && #[trigger] self@[ids[k]] == s[k].1 by {
                        lemma_seq_map_at(s, k);
                    }
                    assert(self@[ids[i as int]].spec_is_parent_of(child));
                    let j = choose|j: int|
                        0 <= j < ids.len() && #[trigger] self@[ids[j]].spec_is_parent_of(child)
                            && forall|k: int| 0 <= k < j ==> !self@[ids[k]].spec_is_parent_of(child);
                    assert(j == i) by {
                        if j < i {
                            assert(!s[j].1.spec_is_parent_of(child));
                        } else if j > i {
                            assert(!self@[ids[i as int]].spec_is_parent_of(child));
                        }
                    }
                    lemma_seq_map_at(s, i as int);
                }
                return Some(self.arena.ids[i]);
            }
            i += 1;
        }
        proof {
            let ids = self.ids();
            assert forall|k: int| 0 <= k < ids.len() implies ids[k] == s[k].0 && #[trigger] self@[ids[k]] == s[k].1 by {
                lemma_seq_map_at(s, k);
            }
            assert forall|p: TileId| #[trigger] self@.dom().contains(p) implies !self@[p].spec_is_parent_of(child) by {
                let j = choose|j: int| 0 <= j < s.len() && #[trigger] s[j].0 == p;
                lemma_seq_map_at(s, j);
                assert(!s[j].1.spec_is_parent_of(child));
            }
            assert(!exists|k: int| 0 <= k < ids.len() && #[trigger] self@[ids[k]].spec_is_parent_of(child)) by {
                assert forall|k: int| 0 <= k < ids.len() implies !#[trigger] self@[ids[k]].spec_is_parent_of(child) by {
                    assert(!s[k].1.spec_is_parent_of(child));
                }
            }
        }
        None
    }
}

impl<Pane> Default for Tiles<Pane> {
    /// An empty arena, whose first fresh id is 1.
    fn default() -> (t: Tiles<Pane>)
        ensures
            t@ == Map::<TileId, Tile<Pane>>::empty(),
            t.ids() == Seq::<TileId>::empty(),
            t.next_counter() == 1,
    {
        Tiles::new()
    }
}

} // verus!
