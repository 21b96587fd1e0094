//! Panes and saved layouts of the terminal's workspace.

use egui_tiles::Tree;
use vstd::prelude::*;

use crate::dock;
use crate::dock::{
    add_child, copy_tree, empty_tree, insert_horizontal, insert_pane, insert_vertical, list_tiles,
    root_of, set_root, set_share, Arrangement, DockView, TileView,
};
use crate::text;
use crate::text::{same_ignoring_ascii_case, text_of, trimmed};

verus! {

/// Storage key of the oldest layout format.
pub const LAYOUT_PREFS_KEY: &'static str = "layout_prefs";

/// Storage key of the first store of named layouts.
pub const LAYOUT_STORE_V1_KEY: &'static str = "layout_store_v1";

/// Storage key of the current store of named layouts.
pub const LAYOUT_STORE_V2_KEY: &'static str = "layout_store_v2";

/// Version of the current store.
pub const LAYOUT_SCHEMA_VERSION: u32 = 2;

/// Name of the layout that a fresh store holds.
pub const DEFAULT_LAYOUT_PROFILE_NAME: &'static str = "Default";

/// Most characters that a layout's name may have.
pub const MAX_LAYOUT_PROFILE_NAME_LEN: usize = 32;

/// A pane of the workspace.
#[derive(Clone, Copy, Debug, PartialEq, Eq, Structural, Hash)]
pub enum PaneKind {
    Heatmap,
    OrderBook,
    MarketImpact,
    FillKill,
    TradesTape,
    Strategy,
    TradeLog,
    EquityCurve,
}

/// All panes, in the order in which missing ones are added to a tree.
pub open spec fn all_panes() -> Seq<PaneKind> {
    seq![
        PaneKind::Heatmap,
        PaneKind::OrderBook,
        PaneKind::MarketImpact,
        PaneKind::FillKill,
        PaneKind::TradesTape,
        PaneKind::Strategy,
        PaneKind::TradeLog,
        PaneKind::EquityCurve,
    ]
}

impl PaneKind {
    /// All panes.
    pub const ALL: [PaneKind; 8] = [
        PaneKind::Heatmap,
        PaneKind::OrderBook,
        PaneKind::MarketImpact,
        PaneKind::FillKill,
        PaneKind::TradesTape,
        PaneKind::Strategy,
        PaneKind::TradeLog,
        PaneKind::EquityCurve,
    ];

    /// The heading over the pane.
    pub open spec fn heading(self) -> Seq<char> {
        match self {
            PaneKind::Heatmap => "Heatmap"@,
            PaneKind::OrderBook => "Order Book"@,
            PaneKind::MarketImpact => "Market Impact"@,
            PaneKind::FillKill => "Fill:Kill"@,
            PaneKind::TradesTape => "Trades Tape"@,
            PaneKind::Strategy => "Strategy"@,
            PaneKind::TradeLog => "Trade Log"@,
            PaneKind::EquityCurve => "Equity"@,
        }
    }

    /// The pane's identifier.
    pub open spec fn identifier(self) -> Seq<char> {
        match self {
            PaneKind::Heatmap => "heatmap"@,
            PaneKind::OrderBook => "order_book"@,
            PaneKind::MarketImpact => "market_impact"@,
            PaneKind::FillKill => "fill_kill"@,
            PaneKind::TradesTape => "trades_tape"@,
            PaneKind::Strategy => "strategy"@,
            PaneKind::TradeLog => "trade_log"@,
            PaneKind::EquityCurve => "equity_curve"@,
        }
    }

    /// The heading over the pane.
    pub fn title(self) -> (title: &'static str)
        ensures
            title@ == self.heading(),
    {
        match self {
            PaneKind::Heatmap => "Heatmap",
            PaneKind::OrderBook => "Order Book",
            PaneKind::MarketImpact => "Market Impact",
            PaneKind::FillKill => "Fill:Kill",
            PaneKind::TradesTape => "Trades Tape",
            PaneKind::Strategy => "Strategy",
            PaneKind::TradeLog => "Trade Log",
            PaneKind::EquityCurve => "Equity",
        }
    }

    /// The pane's identifier.
    pub fn id_str(self) -> (id: &'static str)
        ensures
            id@ == self.identifier(),
    {
        match self {
            PaneKind::Heatmap => "heatmap",
            PaneKind::OrderBook => "order_book",
            PaneKind::MarketImpact => "market_impact",
            PaneKind::FillKill => "fill_kill",
            PaneKind::TradesTape => "trades_tape",
            PaneKind::Strategy => "strategy",
            PaneKind::TradeLog => "trade_log",
            PaneKind::EquityCurve => "equity_curve",
        }
    }
}

// ---------------------------------------------------------------------------
// Panes of a tree
// ---------------------------------------------------------------------------

/// For each pane the number of a tile that holds it, where there is one.
#[derive(Clone, Copy, Debug)]
pub struct PaneTiles {
    pub heatmap: Option<u64>,
    pub order_book: Option<u64>,
    pub market_impact: Option<u64>,
    pub fill_kill: Option<u64>,
    pub trades_tape: Option<u64>,
    pub strategy: Option<u64>,
    pub trade_log: Option<u64>,
    pub equity_curve: Option<u64>,
}

impl PaneTiles {
    /// The tile recorded for a pane.
    pub open spec fn at(self, pane: PaneKind) -> Option<u64> {
        match pane {
            PaneKind::Heatmap => self.heatmap,
            PaneKind::OrderBook => self.order_book,
            PaneKind::MarketImpact => self.market_impact,
            PaneKind::FillKill => self.fill_kill,
            PaneKind::TradesTape => self.trades_tape,
            PaneKind::Strategy => self.strategy,
            PaneKind::TradeLog => self.trade_log,
            PaneKind::EquityCurve => self.equity_curve,
        }
    }

    /// No tile recorded for any pane.
    pub fn new() -> (ids: PaneTiles)
        ensures
            forall|pane: PaneKind| ids.at(pane) is None,
    {
        PaneTiles {
            heatmap: None,
            order_book: None,
            market_impact: None,
            fill_kill: None,
            trades_tape: None,
            strategy: None,
            trade_log: None,
            equity_curve: None,
        }
    }

    /// The tile recorded for a pane.
    pub fn get(&self, pane: PaneKind) -> (id: Option<u64>)
        ensures
            id == self.at(pane),
    {
        match pane {
            PaneKind::Heatmap => self.heatmap,
            PaneKind::OrderBook => self.order_book,
            PaneKind::MarketImpact => self.market_impact,
            PaneKind::FillKill => self.fill_kill,
            PaneKind::TradesTape => self.trades_tape,
            PaneKind::Strategy => self.strategy,
            PaneKind::TradeLog => self.trade_log,
            PaneKind::EquityCurve => self.equity_curve,
        }
    }

    /// Records a tile for a pane.
    pub fn insert(&mut self, pane: PaneKind, id: u64)
        ensures
            final(self).at(pane) == Some(id),
            forall|other: PaneKind| other != pane ==> final(self).at(other) == old(self).at(other),
    {
        match pane {
            PaneKind::Heatmap => {
                self.heatmap = Some(id);
            },
            PaneKind::OrderBook => {
                self.order_book = Some(id);
            },
            PaneKind::MarketImpact => {
                self.market_impact = Some(id);
            },
            PaneKind::FillKill => {
                self.fill_kill = Some(id);
            },
            PaneKind::TradesTape => {
                self.trades_tape = Some(id);
            },
            PaneKind::Strategy => {
                self.strategy = Some(id);
            },
            PaneKind::TradeLog => {
                self.trade_log = Some(id);
            },
            PaneKind::EquityCurve => {
                self.equity_curve = Some(id);
            },
        }
    }
}

/// Whether tile `id` holds `pane`.
pub open spec fn holds_pane(view: DockView, id: u64, pane: PaneKind) -> bool {
    view.tiles.contains_key(id) && view.tiles[id] == TileView::Pane(pane)
}

/// Whether some tile holds `pane`.
pub open spec fn has_pane(view: DockView, pane: PaneKind) -> bool {
    exists|id: u64| holds_pane(view, id, pane)
}

/// Whether `ids` records, for exactly the panes that the tree holds, a tile
/// that holds the pane.
pub open spec fn maps_panes(view: DockView, ids: PaneTiles) -> bool {
    forall|pane: PaneKind| #[trigger]
        ids.at(pane) is Some <==> has_pane(view, pane)
            && (ids.at(pane) is Some ==> holds_pane(view, ids.at(pane)->0, pane))
}

/// The tree that a fresh layout has.
pub open spec fn default_dock() -> DockView {
    DockView {
        root: Some(14),
        tiles: map![
            1u64 => TileView::Pane(PaneKind::Heatmap),
            2u64 => TileView::Pane(PaneKind::OrderBook),
            3u64 => TileView::Pane(PaneKind::MarketImpact),
            4u64 => TileView::Pane(PaneKind::FillKill),
            5u64 => TileView::Pane(PaneKind::TradesTape),
            6u64 => TileView::Pane(PaneKind::Strategy),
            7u64 => TileView::Pane(PaneKind::TradeLog),
            8u64 => TileView::Pane(PaneKind::EquityCurve),
            9u64 => TileView::Container(Arrangement::Horizontal, seq![5u64, 4u64]),
            10u64 => TileView::Container(Arrangement::Vertical, seq![1u64, 9u64]),
            11u64 => TileView::Container(Arrangement::Vertical, seq![2u64, 3u64]),
            12u64 => TileView::Container(Arrangement::Vertical, seq![7u64, 8u64]),
            13u64 => TileView::Container(Arrangement::Horizontal, seq![6u64, 12u64]),
            14u64 => TileView::Container(Arrangement::Horizontal, seq![10u64, 11u64, 13u64]),
        ],
        hidden: Set::empty(),
        shares: map![
            (9u64, 5u64) => 60nat,
            (9u64, 4u64) => 40nat,
            (10u64, 1u64) => 72nat,
            (10u64, 9u64) => 28nat,
            (11u64, 2u64) => 65nat,
            (11u64, 3u64) => 35nat,
            (12u64, 7u64) => 80nat,
            (12u64, 8u64) => 20nat,
            (13u64, 6u64) => 45nat,
            (13u64, 12u64) => 55nat,
            (14u64, 10u64) => 55nat,
            (14u64, 11u64) => 25nat,
            (14u64, 13u64) => 20nat,
        ],
        next: 15,
    }
}

/// A tree whose tile numbers are all below the next one, with room for more.
spec fn is_growing(view: DockView) -> bool {
    dock::numbers_below(view, view.next as int) && view.next < 1000
}

/// The view after a tile has been put under the next number.
spec fn grown(view: DockView, tile: TileView) -> DockView {
    DockView { tiles: view.tiles.insert(view.next as u64, tile), next: view.next + 1, ..view }
}

proof fn lemma_grown(view: DockView, tile: TileView)
    requires
        is_growing(view),
    ensures
        dock::numbers_below(view, u64::MAX - 1),
        dock::is_first_free(view, view.next),
        dock::with_tile(view, tile) == grown(view, tile),
        dock::numbers_below(grown(view, tile), view.next as int + 1),
{
    dock::lemma_next_is_free(view);
}

/// Puts a pane under the next number.
fn plant_pane(tree: &mut Tree<PaneKind>, pane: PaneKind) -> (id: u64)
    requires
        is_growing(dock::contents(*old(tree))),
    ensures
        id == dock::contents(*old(tree)).next,
        dock::contents(*final(tree)) == grown(dock::contents(*old(tree)), TileView::Pane(pane)),
        dock::numbers_below(dock::contents(*final(tree)), id + 1),
{
    proof {
        lemma_grown(dock::contents(*tree), TileView::Pane(pane));
    }
    let ghost before = dock::contents(*tree);
    let id: u64 = insert_pane(tree, pane);
    proof {
        dock::lemma_first_free(before, id as nat);
    }
    id
}

/// Puts a container under the next number and sets its children's shares.
fn plant_container(
    tree: &mut Tree<PaneKind>,
    horizontal: bool,
    children: Vec<u64>,
    percents: Vec<u8>,
) -> (id: u64)
    requires
        is_growing(dock::contents(*old(tree))),
        children.len() == percents.len(),
        forall|i: int| 0 <= i < percents.len() ==> percents@[i] < 100,
    ensures
        id == dock::contents(*old(tree)).next,
        dock::contents(*final(tree)) == (DockView {
            shares: with_shares(
                dock::contents(*old(tree)).shares,
                id,
                children@,
                percents@,
                children@.len(),
            ),
            ..grown(
                dock::contents(*old(tree)),
                TileView::Container(
                    if horizontal {
                        Arrangement::Horizontal
                    } else {
                        Arrangement::Vertical
                    },
                    children@,
                ),
            )
        }),
        dock::numbers_below(dock::contents(*final(tree)), id + 1),
{
    let ghost before = dock::contents(*tree);
    let ghost tile = TileView::Container(
        if horizontal {
            Arrangement::Horizontal
        } else {
            Arrangement::Vertical
        },
        children@,
    );
    proof {
        lemma_grown(before, tile);
    }
    let mut listed: Vec<u64> = Vec::new();
    let mut k: usize = 0;
    while k < children.len()
        invariant
            k <= children.len(),
            listed@ == children@.take(k as int),
        decreases children.len() - k,
    {
        listed.push(children[k]);
        proof {
            assert(children@.take(k as int).push(children@[k as int]) =~= children@.take(
                k as int + 1,
            ));
        }
        k += 1;
    }
    proof {
        assert(children@.take(children@.len() as int) =~= children@);
    }
    let id: u64 = if horizontal {
        insert_horizontal(tree, listed)
    } else {
        insert_vertical(tree, listed)
    };
    proof {
        dock::lemma_first_free(before, id as nat);
    }
    let ghost bare = dock::contents(*tree);
    let mut i: usize = 0;
    while i < children.len()
        invariant
            i <= children.len(),
            children.len() == percents.len(),
            forall|j: int| 0 <= j < percents.len() ==> percents@[j] < 100,
            dock::is_linear(bare, id),
            dock::contents(*tree) == (DockView {
                shares: with_shares(bare.shares, id, children@, percents@, i as nat),
                ..bare
            }),
        decreases children.len() - i,
    {
        set_share(tree, id, children[i], percents[i]);
        i += 1;
    }
    id
}

/// The shares after the first `n` children of a container have got theirs.
pub open spec fn with_shares(
    shares: Map<(u64, u64), nat>,
    container: u64,
    children: Seq<u64>,
    percents: Seq<u8>,
    n: nat,
) -> Map<(u64, u64), nat>
    decreases n,
{
    if n == 0 {
        shares
    } else {
        with_shares(shares, container, children, percents, (n - 1) as nat).insert(
            (container, children[n - 1]),
            percents[n - 1] as nat,
        )
    }
}

/// The tree that a fresh layout has.
pub fn build_default_tree() -> (tree: Tree<PaneKind>)
    ensures
        dock::contents(tree) == default_dock(),
{
    let mut tree: Tree<PaneKind> = empty_tree("workspace".to_string());
    let heatmap: u64 = plant_pane(&mut tree, PaneKind::Heatmap);
    let order_book: u64 = plant_pane(&mut tree, PaneKind::OrderBook);
    let market_impact: u64 = plant_pane(&mut tree, PaneKind::MarketImpact);
    let fill_kill: u64 = plant_pane(&mut tree, PaneKind::FillKill);
    let trades_tape: u64 = plant_pane(&mut tree, PaneKind::TradesTape);
    let strategy: u64 = plant_pane(&mut tree, PaneKind::Strategy);
    let trade_log: u64 = plant_pane(&mut tree, PaneKind::TradeLog);
    let equity_curve: u64 = plant_pane(&mut tree, PaneKind::EquityCurve);
    let bottom: u64 = plant_container(&mut tree, true, vec![trades_tape, fill_kill], vec![60, 40]);
    let left: u64 = plant_container(&mut tree, false, vec![heatmap, bottom], vec![72, 28]);
    let middle: u64 = plant_container(
        &mut tree,
        false,
        vec![order_book, market_impact],
        vec![65, 35],
    );
    let right_charts: u64 = plant_container(
        &mut tree,
        false,
        vec![trade_log, equity_curve],
        vec![80, 20],
    );
    let right: u64 = plant_container(&mut tree, true, vec![strategy, right_charts], vec![45, 55]);
    let root: u64 = plant_container(&mut tree, true, vec![left, middle, right], vec![55, 25, 20]);
    set_root(&mut tree, root);
    proof {
        reveal_with_fuel(with_shares, 4);
        assert(dock::contents(tree).tiles =~= default_dock().tiles);
        assert(dock::contents(tree).shares =~= default_dock().shares);
    }
    tree
}

/// The panes that a tree holds, each with one of the tiles that hold it.
pub fn pane_tile_map(tree: &Tree<PaneKind>) -> (ids: PaneTiles)
    ensures
        maps_panes(dock::contents(*tree), ids),
{
    let pairs: Vec<(u64, Option<PaneKind>)> = list_tiles(tree);
    let ghost view = dock::contents(*tree);
    let mut ids: PaneTiles = PaneTiles::new();
    let mut i: usize = 0;
    while i < pairs.len()
        invariant
            i <= pairs.len(),
            view == dock::contents(*tree),
            dock::lists_tiles(view, pairs@),
            forall|pane: PaneKind| #[trigger]
                ids.at(pane) is Some ==> holds_pane(view, ids.at(pane)->0, pane),
            forall|k: int|
                0 <= k < i && (#[trigger] pairs@[k]).1 is Some ==> ids.at(pairs@[k].1->0) is Some,
        decreases pairs.len() - i,
    {
        if let Some(pane) = pairs[i].1 {
            ids.insert(pane, pairs[i].0);
        }
        i += 1;
    }
    proof {
        assert forall|pane: PaneKind| has_pane(view, pane) implies #[trigger] ids.at(
            pane,
        ) is Some by {
            let id = choose|id: u64| holds_pane(view, id, pane);
            let k = choose|k: int| 0 <= k < pairs@.len() && (#[trigger] pairs@[k]).0 == id;
            assert(pairs@[k].1 == Some(pane));
        }
    }
    ids
}

/// The tree after a pane that it lacks has been put into its root container,
/// or beside a root that is no container; the tree itself where it has it.
pub open spec fn with_pane(view: DockView, pane: PaneKind) -> DockView {
    if has_pane(view, pane) {
        view
    } else {
        let id = dock::first_free(view) as u64;
        let planted = dock::with_tile(view, TileView::Pane(pane));
        match view.root {
            None => DockView { root: Some(id), ..planted },
            Some(root) => if dock::is_container(planted, root) {
                dock::with_child(planted, root, id)
            } else {
                DockView {
                    root: Some(dock::first_free(planted) as u64),
                    ..dock::with_tile(
                        planted,
                        TileView::Container(Arrangement::Horizontal, seq![root, id]),
                    )
                }
            },
        }
    }
}

/// The tree after the first `n` of all panes have been made sure of.
pub open spec fn with_panes(view: DockView, n: nat) -> DockView
    decreases n,
{
    if n == 0 {
        view
    } else {
        with_pane(with_panes(view, (n - 1) as nat), all_panes()[n - 1])
    }
}

/// The tree after all panes have been made sure of: a tree without a root is
/// replaced by the default one.
pub open spec fn completed(view: DockView) -> DockView {
    if view.root is None {
        default_dock()
    } else {
        with_panes(view, 8)
    }
}

/// Whether a tree holds every pane.
pub open spec fn has_all_panes(view: DockView) -> bool {
    forall|pane: PaneKind| #[trigger] has_pane(view, pane)
}

/// Whether there is nothing to add to complete the tree, or the tile numbers
/// leave room for it.
pub open spec fn has_room(view: DockView) -> bool {
    view.root is Some ==> has_all_panes(view) || dock::numbers_below(view, u64::MAX - 20)
}

/// Every pane stands in the list of all panes.
pub proof fn lemma_all_panes(pane: PaneKind)
    ensures
        exists|i: int| 0 <= i < 8 && #[trigger] all_panes()[i] == pane,
{
    let panes = all_panes();
    match pane {
        PaneKind::Heatmap => assert(panes[0] == pane),
        PaneKind::OrderBook => assert(panes[1] == pane),
        PaneKind::MarketImpact => assert(panes[2] == pane),
        PaneKind::FillKill => assert(panes[3] == pane),
        PaneKind::TradesTape => assert(panes[4] == pane),
        PaneKind::Strategy => assert(panes[5] == pane),
        PaneKind::TradeLog => assert(panes[6] == pane),
        PaneKind::EquityCurve => assert(panes[7] == pane),
    }
}

/// Adding a tile under a free number keeps every pane where it is.
pub proof fn lemma_with_tile_keeps_panes(view: DockView, n: nat, tile: TileView)
    requires
        dock::is_first_free(view, n),
    ensures
        forall|id: u64, pane: PaneKind|
            holds_pane(view, id, pane) ==> #[trigger] holds_pane(
                dock::with_tile(view, tile),
                id,
                pane,
            ),
        forall|id: u64, pane: PaneKind| #[trigger]
            holds_pane(dock::with_tile(view, tile), id, pane) ==> holds_pane(view, id, pane)
                || tile == TileView::Pane(pane),
        tile is Pane ==> holds_pane(dock::with_tile(view, tile), n as u64, tile->Pane_0),
{
    dock::lemma_first_free(view, n);
}

/// Makes sure that a tree holds every pane, and returns a tile for each.
pub fn ensure_all_panes(tree: &mut Tree<PaneKind>) -> (ids: PaneTiles)
    requires
        has_room(dock::contents(*old(tree))),
    ensures
        dock::contents(*final(tree)) == completed(dock::contents(*old(tree))),
        maps_panes(dock::contents(*final(tree)), ids),
        forall|pane: PaneKind| #[trigger] ids.at(pane) is Some,
{
    let ghost start = dock::contents(*tree);
    if root_of(tree).is_none() {
        *tree = build_default_tree();
        let ids: PaneTiles = pane_tile_map(tree);
        proof {
            let view = default_dock();
            assert(holds_pane(view, 1, PaneKind::Heatmap));
            assert(holds_pane(view, 2, PaneKind::OrderBook));
            assert(holds_pane(view, 3, PaneKind::MarketImpact));
            assert(holds_pane(view, 4, PaneKind::FillKill));
            assert(holds_pane(view, 5, PaneKind::TradesTape));
            assert(holds_pane(view, 6, PaneKind::Strategy));
            assert(holds_pane(view, 7, PaneKind::TradeLog));
            assert(holds_pane(view, 8, PaneKind::EquityCurve));
        }
        return ids;
    }
    let mut ids: PaneTiles = pane_tile_map(tree);
    let mut i: usize = 0;
    while i < 8
        invariant
            i <= 8,
            start.root is Some,
            dock::contents(*tree).root is Some,
            dock::contents(*tree) == with_panes(start, i as nat),
            has_all_panes(dock::contents(*tree)) || dock::numbers_below(
                dock::contents(*tree),
                u64::MAX - 20 + 2 * i,
            ),
            maps_panes(dock::contents(*tree), ids),
            forall|k: int| 0 <= k < i ==> ids.at(#[trigger] all_panes()[k]) is Some,
        decreases 8 - i,
    {
        let pane: PaneKind = PaneKind::ALL[i];
        proof {
            assert(PaneKind::ALL@ =~= all_panes());
            assert(pane == all_panes()[i as int]);
        }
        let ghost before = dock::contents(*tree);
        let ghost ids_before = ids;
        if ids.get(pane).is_none() {
            assert(!has_pane(before, pane));
            let id: u64 = insert_pane(tree, pane);
            let ghost planted = dock::contents(*tree);
            proof {
                dock::lemma_first_free(before, id as nat);
                dock::lemma_numbers_below(
                    before,
                    id as nat,
                    u64::MAX - 20 + 2 * i,
                    TileView::Pane(pane),
                );
                lemma_with_tile_keeps_panes(before, id as nat, TileView::Pane(pane));
            }
            ids.insert(pane, id);
            if let Some(root) = root_of(tree) {
                if !add_child(tree, root, id) {
                    let ghost tile = TileView::Container(
                        Arrangement::Horizontal,
                        seq![root, id],
                    );
                    let new_root: u64 = insert_horizontal(tree, vec![root, id]);
                    proof {
                        dock::lemma_first_free(planted, new_root as nat);
                        dock::lemma_numbers_below(
                            planted,
                            new_root as nat,
                            u64::MAX - 20 + 2 * i + 1,
                            tile,
                        );
                        lemma_with_tile_keeps_panes(planted, new_root as nat, tile);
                    }
                    set_root(tree, new_root);
                }
            }
            proof {
                let after = dock::contents(*tree);
                assert(after == with_pane(before, pane));
                assert forall|p: PaneKind, t: u64| #[trigger]
                    holds_pane(planted, t, p) implies holds_pane(after, t, p) by {}
                assert forall|p: PaneKind, t: u64| #[trigger]
                    holds_pane(after, t, p) implies holds_pane(planted, t, p) by {}
                assert forall|p: PaneKind| has_pane(after, p) <==> has_pane(before, p) || p
                    == pane by {
                    if has_pane(before, p) {
                        let t = choose|t: u64| holds_pane(before, t, p);
                        assert(holds_pane(planted, t, p));
                        assert(holds_pane(after, t, p));
                    }
                    if p == pane {
                        assert(holds_pane(planted, id, p));
                        assert(holds_pane(after, id, p));
                    }
                    if has_pane(after, p) {
                        let t = choose|t: u64| holds_pane(after, t, p);
                        assert(holds_pane(planted, t, p));
                    }
                }
                assert forall|p: PaneKind| #[trigger]
                    ids.at(p) is Some implies holds_pane(after, ids.at(p)->0, p) by {
                    if p == pane {
                        assert(holds_pane(planted, id, p));
                    } else {
                        assert(ids_before.at(p) is Some);
                        assert(holds_pane(before, ids.at(p)->0, p));
                        assert(holds_pane(planted, ids.at(p)->0, p));
                    }
                }
                assert forall|p: PaneKind| #[trigger]
                    ids.at(p) is Some <==> has_pane(after, p) by {
                    assert(ids_before.at(p) is Some <==> has_pane(before, p));
                }
            }
        }
        i += 1;
    }
    proof {
        assert forall|pane: PaneKind| #[trigger] ids.at(pane) is Some by {
            lemma_all_panes(pane);
            let k = choose|k: int| 0 <= k < 8 && #[trigger] all_panes()[k] == pane;
            assert(ids.at(all_panes()[k]) is Some);
        }
    }
    ids
}

// ---------------------------------------------------------------------------
// Saved layouts
// ---------------------------------------------------------------------------

/// Which windows the oldest layout format showed.
#[derive(Clone, Copy, Debug)]
pub struct LegacyLayoutPrefs {
    pub show_heatmap_window: bool,
    pub show_order_book_window: bool,
    pub show_impact_window: bool,
    pub show_fill_kill_window: bool,
    pub show_trades_tape_window: bool,
}

impl Default for LegacyLayoutPrefs {
    /// All windows shown.
    fn default() -> (prefs: LegacyLayoutPrefs)
        ensures
            prefs.show_heatmap_window,
            prefs.show_order_book_window,
            prefs.show_impact_window,
            prefs.show_fill_kill_window,
            prefs.show_trades_tape_window,
    {
        LegacyLayoutPrefs {
            show_heatmap_window: true,
            show_order_book_window: true,
            show_impact_window: true,
            show_fill_kill_window: true,
            show_trades_tape_window: true,
        }
    }
}

/// A named layout of the first store.
#[derive(Debug)]
pub struct LegacyLayoutProfile {
    pub name: String,
    pub prefs: LegacyLayoutPrefs,
}

impl Default for LegacyLayoutProfile {
    /// The default name, all windows shown.
    fn default() -> (profile: LegacyLayoutProfile)
        ensures
            profile.name@ == DEFAULT_LAYOUT_PROFILE_NAME@,
            profile.prefs == (LegacyLayoutPrefs {
                show_heatmap_window: true,
                show_order_book_window: true,
                show_impact_window: true,
                show_fill_kill_window: true,
                show_trades_tape_window: true,
            }),
    {
        LegacyLayoutProfile {
            name: DEFAULT_LAYOUT_PROFILE_NAME.to_string(),
            prefs: LegacyLayoutPrefs::default(),
        }
    }
}

impl Clone for LegacyLayoutProfile {
    fn clone(&self) -> (copy: LegacyLayoutProfile)
        ensures
            copy == *self,
    {
        LegacyLayoutProfile { name: self.name.clone(), prefs: self.prefs }
    }
}

/// The first store of named layouts.
#[derive(Clone, Debug)]
pub struct LegacyLayoutStore {
    pub schema_version: u32,
    pub active_profile: String,
    pub profiles: Vec<LegacyLayoutProfile>,
}

impl Default for LegacyLayoutStore {
    /// One default layout, which is active.
    fn default() -> (store: LegacyLayoutStore)
        ensures
            store.schema_version == 1,
            store.active_profile@ == DEFAULT_LAYOUT_PROFILE_NAME@,
            store.profiles@.len() == 1,
            store.profiles@[0].name@ == DEFAULT_LAYOUT_PROFILE_NAME@,
            store.profiles@[0].prefs == (LegacyLayoutPrefs {
                show_heatmap_window: true,
                show_order_book_window: true,
                show_impact_window: true,
                show_fill_kill_window: true,
                show_trades_tape_window: true,
            }),
    {
        let mut profiles: Vec<LegacyLayoutProfile> = Vec::new();
        profiles.push(LegacyLayoutProfile::default());
        LegacyLayoutStore {
            schema_version: 1,
            active_profile: DEFAULT_LAYOUT_PROFILE_NAME.to_string(),
            profiles,
        }
    }
}

/// A named layout.
#[derive(Debug)]
pub struct LayoutProfileV2 {
    pub name: String,
    pub dock_tree: Tree<PaneKind>,
}

/// What a named layout holds.
#[verifier::ext_equal]
pub struct ProfileView {
    pub name: Seq<char>,
    pub dock: DockView,
}

impl View for LayoutProfileV2 {
    type V = ProfileView;

    open spec fn view(&self) -> ProfileView {
        ProfileView { name: self.name@, dock: dock::contents(self.dock_tree) }
    }
}

impl Clone for LayoutProfileV2 {
    fn clone(&self) -> (copy: LayoutProfileV2)
        ensures
            copy@ == self@,
    {
        LayoutProfileV2 { name: self.name.clone(), dock_tree: copy_tree(&self.dock_tree) }
    }
}

impl Default for LayoutProfileV2 {
    /// The default name and the default tree.
    fn default() -> (profile: LayoutProfileV2)
        ensures
            profile@ == (ProfileView {
                name: DEFAULT_LAYOUT_PROFILE_NAME@,
                dock: default_dock(),
            }),
    {
        LayoutProfileV2 {
            name: DEFAULT_LAYOUT_PROFILE_NAME.to_string(),
            dock_tree: build_default_tree(),
        }
    }
}

/// The store of named layouts, with the name of the active one.
#[derive(Debug)]
pub struct LayoutStoreV2 {
    pub schema_version: u32,
    pub active_profile: String,
    pub profiles: Vec<LayoutProfileV2>,
}

/// What a store of named layouts holds.
#[verifier::ext_equal]
pub struct StoreView {
    pub schema_version: u32,
    pub active_profile: Seq<char>,
    pub profiles: Seq<ProfileView>,
}

/// What the layouts of a list hold.
pub open spec fn profile_views(profiles: Seq<LayoutProfileV2>) -> Seq<ProfileView> {
    Seq::new(profiles.len(), |i: int| profiles[i]@)
}

impl View for LayoutStoreV2 {
    type V = StoreView;

    open spec fn view(&self) -> StoreView {
        StoreView {
            schema_version: self.schema_version,
            active_profile: self.active_profile@,
            profiles: profile_views(self.profiles@),
        }
    }
}

impl Clone for LayoutStoreV2 {
    fn clone(&self) -> (copy: LayoutStoreV2)
        ensures
            copy@ == self@,
    {
        let mut profiles: Vec<LayoutProfileV2> = Vec::new();
        let mut i: usize = 0;
        while i < self.profiles.len()
            invariant
                i <= self.profiles.len(),
                profiles.len() == i,
                forall|k: int| 0 <= k < i ==> (#[trigger] profiles@[k])@ == self.profiles@[k]@,
            decreases self.profiles.len() - i,
        {
            profiles.push(self.profiles[i].clone());
            i += 1;
        }
        proof {
            assert(profile_views(profiles@) =~= profile_views(self.profiles@));
        }
        LayoutStoreV2 {
            schema_version: self.schema_version,
            active_profile: self.active_profile.clone(),
            profiles,
        }
    }
}

/// A store with one default layout, which is active.
pub open spec fn default_store() -> StoreView {
    StoreView {
        schema_version: LAYOUT_SCHEMA_VERSION,
        active_profile: DEFAULT_LAYOUT_PROFILE_NAME@,
        profiles: seq![ProfileView { name: DEFAULT_LAYOUT_PROFILE_NAME@, dock: default_dock() }],
    }
}

impl Default for LayoutStoreV2 {
    /// One default layout, which is active.
    fn default() -> (store: LayoutStoreV2)
        ensures
            store@ == default_store(),
    {
        let mut profiles: Vec<LayoutProfileV2> = Vec::new();
        profiles.push(LayoutProfileV2::default());
        let store = LayoutStoreV2 {
            schema_version: LAYOUT_SCHEMA_VERSION,
            active_profile: DEFAULT_LAYOUT_PROFILE_NAME.to_string(),
            profiles,
        };
        proof {
            assert(store@.profiles =~= default_store().profiles);
        }
        store
    }
}

/// Whether two names count as the same: equal but for the case of ASCII
/// letters.
pub open spec fn same_name(a: Seq<char>, b: Seq<char>) -> bool {
    text::fold(a) == text::fold(b)
}

/// The index of the first layout with the given name; the number of layouts
/// where there is none.
pub open spec fn position(profiles: Seq<ProfileView>, name: Seq<char>) -> int
    decreases profiles.len(),
{
    if profiles.len() == 0 {
        0
    } else if same_name(profiles[0].name, name) {
        0
    } else {
        1 + position(profiles.skip(1), name)
    }
}

/// The index of the first layout with the given name, or zero.
pub open spec fn position_or_first(profiles: Seq<ProfileView>, name: Seq<char>) -> int {
    let found = position(profiles, name);
    if found < profiles.len() {
        found
    } else {
        0
    }
}

/// `position` is the first index whose layout has the name.
pub proof fn lemma_position(profiles: Seq<ProfileView>, name: Seq<char>)
    ensures
        0 <= position(profiles, name) <= profiles.len(),
        position(profiles, name) < profiles.len() ==> same_name(
            profiles[position(profiles, name)].name,
            name,
        ),
        forall|i: int|
            0 <= i < position(profiles, name) ==> !same_name((#[trigger] profiles[i]).name, name),
    decreases profiles.len(),
{
    if profiles.len() > 0 && !same_name(profiles[0].name, name) {
        let rest = profiles.skip(1);
        lemma_position(rest, name);
        assert forall|i: int| 0 <= i < position(profiles, name) implies !same_name(
            (#[trigger] profiles[i]).name,
            name,
        ) by {
            if i > 0 {
                assert(rest[i - 1] == profiles[i]);
            }
        }
    }
}

/// The first layout with the given name is found where no earlier one has it.
pub proof fn lemma_position_is(profiles: Seq<ProfileView>, name: Seq<char>, at: int)
    requires
        0 <= at < profiles.len(),
        same_name(profiles[at].name, name),
        forall|i: int| 0 <= i < at ==> !same_name((#[trigger] profiles[i]).name, name),
    ensures
        position(profiles, name) == at,
{
    lemma_position(profiles, name);
    let found = position(profiles, name);
    if found < at {
        assert(same_name(profiles[found].name, name));
    }
}

/// The index of the first layout with the given name; the number of layouts
/// where there is none.
pub fn find_named(profiles: &Vec<LayoutProfileV2>, name: &str) -> (found: usize)
    ensures
        found == position(profile_views(profiles@), name@),
{
    let ghost views = profile_views(profiles@);
    let mut i: usize = 0;
    proof {
        assert(views.skip(0) =~= views);
    }
    while i < profiles.len()
        invariant
            i <= profiles.len(),
            views == profile_views(profiles@),
            position(views, name@) == i + position(views.skip(i as int), name@),
        decreases profiles.len() - i,
    {
        proof {
            assert(views.skip(i as int)[0] == profiles@[i as int]@);
            assert(views.skip(i as int).skip(1) =~= views.skip(i as int + 1));
        }
        if same_ignoring_ascii_case(&profiles[i].name, name) {
            return i;
        }
        i += 1;
    }
    i
}

/// A name without white space around it, cut to the greatest length allowed.
pub open spec fn normalized(name: Seq<char>) -> Seq<char> {
    cut(text::trim(name), MAX_LAYOUT_PROFILE_NAME_LEN as int)
}

/// The first `n` characters, or all of them where there are fewer.
pub open spec fn cut(s: Seq<char>, n: int) -> Seq<char> {
    if s.len() <= n {
        s
    } else {
        s.take(n)
    }
}

/// The first `n` characters of a list, as text.
pub fn cut_text(chars: &Vec<char>, n: usize) -> (text: String)
    ensures
        text@ == cut(chars@, n as int),
{
    let mut out: String = String::new();
    let mut i: usize = 0;
    while i < chars.len() && i < n
        invariant
            i <= chars.len(),
            i <= n,
            out@ == chars@.take(i as int),
        decreases chars.len() - i,
    {
        out.push(chars[i]);
        proof {
            assert(chars@.take(i as int).push(chars@[i as int]) =~= chars@.take(i as int + 1));
        }
        i += 1;
    }
    proof {
        assert(chars@.take(chars@.len() as int) =~= chars@);
    }
    out
}

/// A name without white space around it, cut to the greatest length allowed.
pub fn normalize_layout_profile_name(input: &str) -> (name: String)
    ensures
        name@ == normalized(input@),
{
    let chars: Vec<char> = trimmed(input);
    cut_text(&chars, MAX_LAYOUT_PROFILE_NAME_LEN)
}

/// Whether a layout other than the one at `skip` has the given name.
pub open spec fn is_taken(profiles: Seq<ProfileView>, skip: Option<usize>, name: Seq<char>) -> bool {
    exists|i: int|
        0 <= i < profiles.len() && skip != Some(i as usize) && same_name(
            (#[trigger] profiles[i]).name,
            name,
        )
}

/// What becomes of a name that a user enters: its normal form, or why it is
/// refused.
pub open spec fn name_verdict(
    input: Seq<char>,
    profiles: Seq<ProfileView>,
    skip: Option<usize>,
) -> Result<Seq<char>, Seq<char>> {
    if text::trim(input).len() == 0 {
        Err("Profile name cannot be empty."@)
    } else if text::trim(input).len() > MAX_LAYOUT_PROFILE_NAME_LEN {
        Err("Profile name must be at most 32 characters."@)
    } else if is_taken(profiles, skip, text::trim(input)) {
        Err("Profile name already exists."@)
    } else {
        Ok(text::trim(input))
    }
}

/// Whether an outcome is the one that a specification asks for.
pub open spec fn is_verdict(
    outcome: Result<String, String>,
    verdict: Result<Seq<char>, Seq<char>>,
) -> bool {
    match verdict {
        Ok(name) => outcome matches Ok(text) && text@ == name,
        Err(message) => outcome matches Err(text) && text@ == message,
    }
}

/// Checks a name that a user enters for the layout at `skip_idx`, or for a new
/// one.
pub fn validate_layout_profile_name(
    input: &str,
    profiles: &Vec<LayoutProfileV2>,
    skip_idx: Option<usize>,
) -> (outcome: Result<String, String>)
    ensures
        is_verdict(outcome, name_verdict(input@, profile_views(profiles@), skip_idx)),
{
    let chars: Vec<char> = trimmed(input);
    if chars.len() == 0 {
        return Err("Profile name cannot be empty.".to_string());
    }
    if chars.len() > MAX_LAYOUT_PROFILE_NAME_LEN {
        return Err("Profile name must be at most 32 characters.".to_string());
    }
    let name: String = text_of(&chars);
    let ghost views = profile_views(profiles@);
    let mut i: usize = 0;
    while i < profiles.len()
        invariant
            i <= profiles.len(),
            views == profile_views(profiles@),
            name@ == text::trim(input@),
            0 < name@.len() <= MAX_LAYOUT_PROFILE_NAME_LEN,
            forall|k: int|
                0 <= k < i && skip_idx != Some(k as usize) ==> !same_name(
                    (#[trigger] views[k]).name,
                    name@,
                ),
        decreases profiles.len() - i,
    {
        let skipped: bool = match skip_idx {
            Some(skip) => skip == i,
            None => false,
        };
        if !skipped && same_ignoring_ascii_case(&profiles[i].name, &name) {
            proof {
                assert(same_name(views[i as int].name, name@));
            }
            return Err("Profile name already exists.".to_string());
        }
        i += 1;
    }
    Ok(name)
}

/// The store after the layout at `idx` has become the active one; the store
/// itself where there is no such layout.
pub open spec fn with_active(store: StoreView, idx: int) -> StoreView {
    if 0 <= idx < store.profiles.len() {
        StoreView { active_profile: store.profiles[idx].name, ..store }
    } else {
        store
    }
}

/// The index of the active layout: the first one with the active name, or the
/// first one.
pub open spec fn active_position(store: StoreView) -> int {
    position_or_first(store.profiles, store.active_profile)
}

/// The store after the layout at `idx` has got a new name.
pub open spec fn with_name(store: StoreView, idx: int, name: Seq<char>) -> StoreView {
    let renamed = StoreView {
        profiles: store.profiles.update(idx, ProfileView { name, ..store.profiles[idx] }),
        ..store
    };
    if same_name(store.profiles[idx].name, store.active_profile) {
        with_active(renamed, idx)
    } else {
        with_active(renamed, active_position(renamed))
    }
}

/// The store without the layout at `idx`. Where that one was active, the
/// default layout is made active, or else the first.
pub open spec fn without(store: StoreView, idx: int) -> StoreView {
    let rest = StoreView { profiles: store.profiles.remove(idx), ..store };
    if same_name(store.profiles[idx].name, store.active_profile) {
        with_active(rest, position_or_first(rest.profiles, DEFAULT_LAYOUT_PROFILE_NAME@))
    } else {
        with_active(rest, active_position(rest))
    }
}

impl LayoutStoreV2 {
    /// The index of the active layout.
    pub fn active_index(&self) -> (idx: usize)
        ensures
            idx == active_position(self@),
    {
        let found: usize = find_named(&self.profiles, &self.active_profile);
        if found < self.profiles.len() {
            found
        } else {
            0
        }
    }

    /// Makes the layout at `idx` the active one, where there is one.
    pub fn set_active_index(&mut self, idx: usize)
        ensures
            final(self)@ == with_active(old(self)@, idx as int),
    {
        if idx < self.profiles.len() {
            self.active_profile = self.profiles[idx].name.clone();
        }
    }

    /// Adds a layout under a name that a user enters, makes it the active one
    /// and returns its index.
    pub fn create_profile(
        &mut self,
        name: &str,
        dock_tree: Tree<PaneKind>,
    ) -> (outcome: Result<usize, String>)
        ensures
            match name_verdict(name@, old(self)@.profiles, None) {
                Err(message) => outcome matches Err(text) && text@ == message && final(self)@
                    == old(self)@,
                Ok(normal) => outcome == Ok::<usize, String>(old(self).profiles.len())
                    && final(self)@ == (StoreView {
                    schema_version: old(self)@.schema_version,
                    active_profile: normal,
                    profiles: old(self)@.profiles.push(
                        ProfileView { name: normal, dock: dock::contents(dock_tree) },
                    ),
                }),
            },
    {
        let name: String = match validate_layout_profile_name(name, &self.profiles, None) {
            Ok(normal) => normal,
            Err(message) => {
                return Err(message);
            },
        };
        let ghost before = self@;
        let ghost normal = name@;
        let idx: usize = self.profiles.len();
        self.profiles.push(LayoutProfileV2 { name, dock_tree });
        proof {
            assert(self@.profiles =~= before.profiles.push(
                ProfileView { name: normal, dock: dock::contents(dock_tree) },
            ));
        }
        self.set_active_index(idx);
        Ok(idx)
    }

    /// Gives the layout at `idx` a name that a user enters.
    pub fn rename_profile(&mut self, idx: usize, new_name: &str) -> (outcome: Result<(), String>)
        ensures
            if idx >= old(self)@.profiles.len() {
                outcome matches Err(text) && text@ == "Profile does not exist."@ && final(self)@
                    == old(self)@
            } else {
                match name_verdict(new_name@, old(self)@.profiles, Some(idx)) {
                    Err(message) => outcome matches Err(text) && text@ == message && final(self)@
                        == old(self)@,
                    Ok(normal) => outcome is Ok && final(self)@ == with_name(
                        old(self)@,
                        idx as int,
                        normal,
                    ),
                }
            },
    {
        if idx >= self.profiles.len() {
            return Err("Profile does not exist.".to_string());
        }
        let was_active: bool = same_ignoring_ascii_case(
            &self.profiles[idx].name,
            &self.active_profile,
        );
        let name: String = match validate_layout_profile_name(
            new_name,
            &self.profiles,
            Some(idx),
        ) {
            Ok(normal) => normal,
            Err(message) => {
                return Err(message);
            },
        };
        let ghost before = self@;
        let ghost normal = name@;
        self.profiles[idx].name = name;
        proof {
            assert(self@.profiles =~= before.profiles.update(
                idx as int,
                ProfileView { name: normal, ..before.profiles[idx as int] },
            ));
        }
        if was_active {
            self.active_profile = self.profiles[idx].name.clone();
        } else {
            let active: usize = self.active_index();
            self.set_active_index(active);
        }
        Ok(())
    }

    /// Removes the layout at `idx`, unless it is the last one, and tells
    /// whether it was the active one.
    pub fn delete_profile(&mut self, idx: usize) -> (outcome: Result<bool, String>)
        ensures
            if old(self)@.profiles.len() <= 1 {
                outcome matches Err(text) && text@ == "Cannot delete the last remaining profile."@
                    && final(self)@ == old(self)@
            } else if idx >= old(self)@.profiles.len() {
                outcome matches Err(text) && text@ == "Profile does not exist."@ && final(self)@
                    == old(self)@
            } else {
                outcome == Ok::<bool, String>(
                    same_name(
                        old(self)@.profiles[idx as int].name,
                        old(self)@.active_profile,
                    ),
                ) && final(self)@ == without(old(self)@, idx as int)
            },
    {
        if self.profiles.len() <= 1 {
            return Err("Cannot delete the last remaining profile.".to_string());
        }
        if idx >= self.profiles.len() {
            return Err("Profile does not exist.".to_string());
        }
        let was_active: bool = same_ignoring_ascii_case(
            &self.profiles[idx].name,
            &self.active_profile,
        );
        let ghost before = self@;
        let _removed: LayoutProfileV2 = self.profiles.remove(idx);
        proof {
            assert(self@.profiles =~= before.profiles.remove(idx as int));
        }
        if was_active {
            let found: usize = find_named(&self.profiles, DEFAULT_LAYOUT_PROFILE_NAME);
            let fallback: usize = if found < self.profiles.len() {
                found
            } else {
                0
            };
            self.set_active_index(fallback);
        } else {
            let active: usize = self.active_index();
            self.set_active_index(active);
        }
        Ok(was_active)
    }
}

} // verus!
