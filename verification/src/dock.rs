//! The dock tree: what the library knows of `egui_tiles::Tree`.
//!
//! A tree is seen as a [`DockView`]. The functions here make the calls into
//! `egui_tiles`; what they promise is read off that crate's source.

use egui_tiles::{Container, Tile, TileId, Tree};
use vstd::prelude::*;

use crate::workspace::PaneKind;

verus! {

/// `egui_tiles::Tree`, opaque.
#[verifier::external_type_specification]
#[verifier::external_body]
#[verifier::reject_recursive_types(Pane)]
pub struct ExTree<Pane>(egui_tiles::Tree<Pane>);

/// How a container lays out its children.
pub enum Arrangement {
    Tabs,
    Horizontal,
    Vertical,
    Grid,
}

/// A tile: a pane, or a container with its children in order.
pub enum TileView {
    Pane(PaneKind),
    Container(Arrangement, Seq<u64>),
}

/// What a dock tree holds.
///
/// `hidden` are the tiles that are switched off; `shares` gives, for a child
/// of a horizontal or vertical container, the share of space that was set for
/// it, in hundredths and rounded; `next` is the number from which the next
/// free tile number is looked for.
#[verifier::ext_equal]
pub struct DockView {
    pub root: Option<u64>,
    pub tiles: Map<u64, TileView>,
    pub hidden: Set<u64>,
    pub shares: Map<(u64, u64), nat>,
    pub next: nat,
}

/// The tiles of a tree by number.
pub uninterp spec fn tree_tiles(tree: Tree<PaneKind>) -> Map<u64, TileView>;

/// The number of the root tile.
pub uninterp spec fn tree_root(tree: Tree<PaneKind>) -> Option<u64>;

/// The numbers of the tiles that are switched off.
pub uninterp spec fn tree_hidden(tree: Tree<PaneKind>) -> Set<u64>;

/// The shares set in linear containers, by container and child, in hundredths.
pub uninterp spec fn tree_shares(tree: Tree<PaneKind>) -> Map<(u64, u64), nat>;

/// The number from which the next free tile number is looked for.
pub uninterp spec fn tree_next(tree: Tree<PaneKind>) -> nat;

/// What a dock tree holds.
pub open spec fn contents(tree: Tree<PaneKind>) -> DockView {
    DockView {
        root: tree_root(tree),
        tiles: tree_tiles(tree),
        hidden: tree_hidden(tree),
        shares: tree_shares(tree),
        next: tree_next(tree),
    }
}

// ---------------------------------------------------------------------------
// Operations on the view
// ---------------------------------------------------------------------------

/// A dock without tiles, whose numbers start at one.
pub open spec fn empty_dock() -> DockView {
    DockView {
        root: None,
        tiles: Map::empty(),
        hidden: Set::empty(),
        shares: Map::empty(),
        next: 1,
    }
}

/// Whether `n` is the first number from `view.next` on that no tile has.
pub open spec fn is_first_free(view: DockView, n: nat) -> bool {
    &&& view.next <= n <= u64::MAX
    &&& !view.tiles.contains_key(n as u64)
    &&& forall|m: nat| view.next <= m < n ==> #[trigger] view.tiles.contains_key(m as u64)
}

/// The first number from `view.next` on that no tile has.
pub open spec fn first_free(view: DockView) -> nat {
    choose|n: nat| is_first_free(view, n)
}

/// Every tile number, and the next one, is below `limit` (the next one may
/// equal it).
pub open spec fn numbers_below(view: DockView, limit: int) -> bool {
    &&& view.next <= limit
    &&& forall|t: u64| #[trigger] view.tiles.contains_key(t) ==> t < limit
}

/// The view after a tile has been put under the first free number.
pub open spec fn with_tile(view: DockView, tile: TileView) -> DockView {
    DockView {
        tiles: view.tiles.insert(first_free(view) as u64, tile),
        next: first_free(view) + 1,
        ..view
    }
}

/// Whether the tile is a container.
pub open spec fn is_container(view: DockView, id: u64) -> bool {
    view.tiles.contains_key(id) && view.tiles[id] is Container
}

/// Whether the tile is a horizontal or vertical container.
pub open spec fn is_linear(view: DockView, id: u64) -> bool {
    is_container(view, id) && (view.tiles[id]->Container_0 is Horizontal
        || view.tiles[id]->Container_0 is Vertical)
}

/// The view after a container has got one more child at its end.
pub open spec fn with_child(view: DockView, parent: u64, child: u64) -> DockView {
    DockView {
        tiles: view.tiles.insert(
            parent,
            TileView::Container(
                view.tiles[parent]->Container_0,
                view.tiles[parent]->Container_1.push(child),
            ),
        ),
        ..view
    }
}

/// There is but one first free number.
pub proof fn lemma_first_free(view: DockView, n: nat)
    requires
        is_first_free(view, n),
    ensures
        first_free(view) == n,
{
    let m = first_free(view);
    assert(is_first_free(view, m));
    if m < n {
        assert(view.tiles.contains_key(m as u64));
    } else if n < m {
        assert(view.tiles.contains_key(n as u64));
    }
}

/// Where the numbers of all tiles are below the next one, that one is free.
pub proof fn lemma_next_is_free(view: DockView)
    requires
        numbers_below(view, view.next as int),
        view.next <= u64::MAX,
    ensures
        is_first_free(view, view.next),
        first_free(view) == view.next,
{
    lemma_first_free(view, view.next);
}

/// With all numbers below `limit`, the first free one is at most `limit`, and
/// taking it leaves all numbers below `limit + 1`.
pub proof fn lemma_numbers_below(view: DockView, n: nat, limit: int, tile: TileView)
    requires
        is_first_free(view, n),
        numbers_below(view, limit),
        limit <= u64::MAX,
    ensures
        n <= limit,
        numbers_below(with_tile(view, tile), limit + 1),
{
    lemma_first_free(view, n);
    if n > limit {
        assert(view.tiles.contains_key((limit as nat) as u64));
    }
}

// ---------------------------------------------------------------------------
// Calls into egui_tiles
// ---------------------------------------------------------------------------

/// `Tree::empty`: a tree with no root and no tile, none switched off, whose
/// tile numbers start at one. The identity that the tree gets from `id` is a
/// hash that differs between machines; nothing is said of it.
#[verifier::external_body]
pub(crate) fn empty_tree(id: String) -> (tree: Tree<PaneKind>)
    ensures
        tree_root(tree) is None,
        tree_tiles(tree) == empty_dock().tiles,
        tree_hidden(tree) == empty_dock().hidden,
        tree_shares(tree) == empty_dock().shares,
        tree_next(tree) == empty_dock().next,
{
    Tree::empty(id)
}

/// `Tree::root`: the number of the root tile, if there is one.
#[verifier::external_body]
pub(crate) fn root_of(tree: &Tree<PaneKind>) -> (root: Option<u64>)
    ensures
        root == tree_root(*tree),
{
    tree.root().map(|id| id.0)
}

/// Assigns the public field `Tree::root`.
#[verifier::external_body]
pub(crate) fn set_root(tree: &mut Tree<PaneKind>, root: u64)
    ensures
        contents(*final(tree)) == (DockView { root: Some(root), ..contents(*old(tree)) }),
{
    tree.root = Some(TileId(root));
}

/// `Tiles::insert_pane`: puts the pane under the first free number and returns
/// that number. The counter behind the numbers is left room to step past it.
#[verifier::external_body]
pub(crate) fn insert_pane(tree: &mut Tree<PaneKind>, pane: PaneKind) -> (id: u64)
    requires
        numbers_below(contents(*old(tree)), u64::MAX - 1),
    ensures
        is_first_free(contents(*old(tree)), id as nat),
        contents(*final(tree)) == with_tile(contents(*old(tree)), TileView::Pane(pane)),
{
    tree.tiles.insert_pane(pane).0
}

/// `Tiles::insert_horizontal_tile`: puts a horizontal container with these
/// children, and no shares set, under the first free number.
#[verifier::external_body]
pub(crate) fn insert_horizontal(tree: &mut Tree<PaneKind>, children: Vec<u64>) -> (id: u64)
    requires
        numbers_below(contents(*old(tree)), u64::MAX - 1),
    ensures
        is_first_free(contents(*old(tree)), id as nat),
        contents(*final(tree)) == with_tile(
            contents(*old(tree)),
            TileView::Container(Arrangement::Horizontal, children@),
        ),
{
    tree.tiles.insert_horizontal_tile(children.into_iter().map(TileId).collect()).0
}

/// `Tiles::insert_vertical_tile`: puts a vertical container with these
/// children, and no shares set, under the first free number.
#[verifier::external_body]
pub(crate) fn insert_vertical(tree: &mut Tree<PaneKind>, children: Vec<u64>) -> (id: u64)
    requires
        numbers_below(contents(*old(tree)), u64::MAX - 1),
    ensures
        is_first_free(contents(*old(tree)), id as nat),
        contents(*final(tree)) == with_tile(
            contents(*old(tree)),
            TileView::Container(Arrangement::Vertical, children@),
        ),
{
    tree.tiles.insert_vertical_tile(children.into_iter().map(TileId).collect()).0
}

/// `Container::add_child` on the tile that `Tiles::get_mut` finds: the child
/// comes last. Where the tile is missing or is a pane nothing happens, and the
/// result says so.
#[verifier::external_body]
pub(crate) fn add_child(tree: &mut Tree<PaneKind>, parent: u64, child: u64) -> (added: bool)
    ensures
        added == is_container(contents(*old(tree)), parent),
        contents(*final(tree)) == (if added {
            with_child(contents(*old(tree)), parent, child)
        } else {
            contents(*old(tree))
        }),
{
    match tree.tiles.get_mut(TileId(parent)) {
        Some(Tile::Container(container)) => {
            container.add_child(TileId(child));
            true
        },
        _ => false,
    }
}

/// `Shares::set_share` on the linear container that `Tiles::get_mut` finds:
/// the share becomes `percent` hundredths. On any other tile nothing happens.
#[verifier::external_body]
pub(crate) fn set_share(tree: &mut Tree<PaneKind>, container: u64, child: u64, percent: u8)
    requires
        percent < 100,
    ensures
        contents(*final(tree)) == (if is_linear(contents(*old(tree)), container) {
            DockView {
                shares: tree_shares(*old(tree)).insert((container, child), percent as nat),
                ..contents(*old(tree))
            }
        } else {
            contents(*old(tree))
        }),
{
    let share = format!("0.{:02}", percent).parse().unwrap_or_default();
    if let Some(Tile::Container(Container::Linear(linear))) = tree.tiles.get_mut(TileId(container)) {
        linear.shares.set_share(TileId(child), share);
    }
}

/// Whether the pairs are the tiles of the view, each once, with the kind of
/// those that are panes.
pub open spec fn lists_tiles(view: DockView, pairs: Seq<(u64, Option<PaneKind>)>) -> bool {
    &&& forall|i: int|
        0 <= i < pairs.len() ==> view.tiles.contains_key((#[trigger] pairs[i]).0)
            && match view.tiles[pairs[i].0] {
            TileView::Pane(pane) => pairs[i].1 == Some(pane),
            TileView::Container(_, _) => pairs[i].1 is None,
        }
    &&& forall|t: u64| #[trigger]
        view.tiles.contains_key(t) ==> exists|i: int| 0 <= i < pairs.len() && (#[trigger] pairs[i]).0 == t
    &&& forall|i: int, j: int|
        0 <= i < j < pairs.len() ==> (#[trigger] pairs[i]).0 != (#[trigger] pairs[j]).0
}

/// `Tiles::iter`: all tiles, in an order that is left open.
#[verifier::external_body]
pub(crate) fn list_tiles(tree: &Tree<PaneKind>) -> (pairs: Vec<(u64, Option<PaneKind>)>)
    ensures
        lists_tiles(contents(*tree), pairs@),
{
    tree.tiles.iter().map(|(id, tile)| match tile {
        Tile::Pane(pane) => (id.0, Some(*pane)),
        Tile::Container(_) => (id.0, None),
    }).collect()
}

/// `Tree::is_visible`: a tile is visible unless it is switched off.
#[verifier::external_body]
pub(crate) fn is_visible(tree: &Tree<PaneKind>, id: u64) -> (visible: bool)
    ensures
        visible == !tree_hidden(*tree).contains(id),
{
    tree.is_visible(TileId(id))
}

/// `Tree::set_visible`: switches a tile on or off.
#[verifier::external_body]
pub(crate) fn set_visible(tree: &mut Tree<PaneKind>, id: u64, visible: bool)
    ensures
        contents(*final(tree)) == (DockView {
            hidden: if visible {
                tree_hidden(*old(tree)).remove(id)
            } else {
                tree_hidden(*old(tree)).insert(id)
            },
            ..contents(*old(tree))
        }),
{
    tree.set_visible(TileId(id), visible);
}

/// `Tree::clone`: the copy holds what the tree holds.
#[verifier::external_body]
pub(crate) fn copy_tree(tree: &Tree<PaneKind>) -> (copy: Tree<PaneKind>)
    ensures
        contents(copy) == contents(*tree),
{
    tree.clone()
}

} // verus!
