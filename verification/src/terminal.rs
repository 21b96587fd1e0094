//! The terminal as a whole: what a session holds, how it starts, what a frame of
//! the market does to it, and how it connects again.

use vstd::prelude::*;

use crate::arith;
use crate::arith::{Arithmetic, Model};
use crate::charts::EventSettings;
use crate::desk;
use crate::desk::{load_store, LayoutDesk};
use crate::heatmap::HeatGrid;
use crate::layouts;
use crate::lens;
use crate::lens::Lens;
use crate::perf;
use crate::perf::{repaint_ms, PerfStats, PerfWindowSnapshot};
use crate::picker::SymbolPicker;
use crate::picker;
use crate::pipeline;
use crate::pipeline::StrategyPipeline;
use crate::pointer::HeatmapRenderKey;
use crate::session;
use crate::session::{connect_request, read_amount, ConnectRequest, DesyncWatch};
use crate::tape::TapeSettings;
use crate::text;
use crate::workspace;
use crate::workspace::{LayoutStoreV2, LegacyLayoutPrefs, LegacyLayoutStore, PaneKind};

verus! {

/// What a session holds.
pub struct OrderBookApp<F, P> {
    pub picker: SymbolPicker<F>,
    pub desk: LayoutDesk,
    pub bin_width_input: String,
    pub active_symbol: String,
    pub active_bin_width: F,
    pub impact_notional_usd: F,
    pub impact_notional_input: String,
    pub impact_side_is_buy: bool,
    pub tape: TapeSettings<F>,
    pub events: EventSettings,
    pub fill_kill_hover_ts: Option<F>,
    pub heatmap_min_qty: F,
    pub heatmap_min_qty_input: String,
    pub lens: Lens<F>,
    pub grid: HeatGrid<P>,
    pub render_key: Option<HeatmapRenderKey>,
    pub watch: DesyncWatch,
    pub show_perf_overlay: bool,
    pub perf: PerfStats<F>,
    pub pipeline: StrategyPipeline<F>,
}

/// Whether a grid has no cells.
pub open spec fn is_empty_grid<P>(grid: HeatGrid<P>) -> bool {
    &&& grid.cols == 0
    &&& grid.rows == 0
    &&& grid.bid_qty@ == Seq::<P>::empty()
    &&& grid.ask_qty@ == Seq::<P>::empty()
}

/// Whether a session is at its start, with its saved layout on the screen.
pub open spec fn is_start<F, P>(app: OrderBookApp<F, P>) -> bool {
    &&& app.picker@ == (picker::PickerView::<F> {
        symbol_input: "btcusdt"@,
        open: false,
        query: Seq::empty(),
        selected_idx: 0,
        sort_mode: picker::PickerSortMode::Volume,
        last_epoch: 0,
        last_query: Seq::empty(),
        filtered: Seq::empty(),
    })
    &&& app.bin_width_input@ == "1"@
    &&& app.active_symbol@ == "btcusdt"@
    &&& app.impact_notional_input@ == "10000"@
    &&& app.impact_side_is_buy
    &&& app.tape.row_cap == 120
    &&& !app.tape.min_notional_enabled
    &&& app.tape.min_notional_input@ == "10000"@
    &&& app.events.show_infinity
    &&& app.events.highlight_overfill
    &&& app.fill_kill_hover_ts is None
    &&& app.heatmap_min_qty_input@ == "0"@
    &&& is_empty_grid(app.grid)
    &&& app.render_key is None
    &&& app.watch.deadline_ms is None
    &&& app.show_perf_overlay
    &&& app.pipeline.enabled
}

/// The numbers of a session at its start.
pub open spec fn are_start_figures<F: Copy, P>(m: Model<F>, app: OrderBookApp<F, P>) -> bool {
    &&& app.active_bin_width == m.ratio(1, 1)
    &&& app.impact_notional_usd == m.ratio(10_000, 1)
    &&& app.tape.min_notional_usd == m.ratio(10_000, 1)
    &&& app.heatmap_min_qty == m.zero()
    &&& app.lens == lens::unset(m)
    &&& app.perf == perf::fresh(m)
    &&& app.pipeline.initial_equity == m.ratio(10_000, 1)
    &&& app.pipeline.has_fresh_figures(m)
}

/// Whether a session has started over with what a user had entered: the layouts
/// and the settings of the panels are what they were.
pub open spec fn is_restarted<F: Copy, P>(
    before: OrderBookApp<F, P>,
    after: OrderBookApp<F, P>,
    request: ConnectRequest<F>,
) -> bool {
    &&& request.symbol_input@ == session::wanted_input(
        before.picker@.query,
        before.picker@.symbol_input,
    )
    &&& request.entered_symbol@ == session::wanted_symbol(
        before.picker@.query,
        before.picker@.symbol_input,
    )
    &&& request.symbol@ == (if request.entered_symbol@.len() == 0 {
        "btcusdt"@
    } else {
        request.entered_symbol@
    })
    &&& after.picker@ == (picker::PickerView {
        symbol_input: request.symbol_input@,
        ..before.picker@
    })
    &&& after.active_symbol@ == request.symbol@
    &&& after.active_bin_width == request.bin_width
    &&& after.pipeline.is_fresh(request.entered_symbol@)
    &&& after.pipeline.enabled == before.pipeline.enabled
    &&& after.pipeline.initial_equity == before.pipeline.initial_equity
    &&& after.fill_kill_hover_ts is None
    &&& is_empty_grid(after.grid)
    &&& after.render_key is None
    &&& after.watch.deadline_ms is None
    &&& after == (OrderBookApp {
        picker: after.picker,
        active_symbol: after.active_symbol,
        active_bin_width: after.active_bin_width,
        pipeline: after.pipeline,
        fill_kill_hover_ts: after.fill_kill_hover_ts,
        lens: after.lens,
        grid: after.grid,
        render_key: after.render_key,
        watch: after.watch,
        ..before
    })
}

/// The numbers of a session that has started over.
pub open spec fn are_restart_figures<F: Copy, P>(
    m: Model<F>,
    before: OrderBookApp<F, P>,
    after: OrderBookApp<F, P>,
    request: ConnectRequest<F>,
) -> bool {
    &&& request.bin_width == session::wanted_width(m, before.bin_width_input@)
    &&& after.lens == lens::unset(m)
    &&& after.pipeline.has_fresh_figures(m)
}

impl<F: Copy, P: Copy> OrderBookApp<F, P> {
    /// A session with the layouts that were saved, on bitcoin.
    pub fn new<A: Arithmetic<F>>(
        a: &A,
        current: Option<LayoutStoreV2>,
        first: Option<LegacyLayoutStore>,
        oldest: Option<LegacyLayoutPrefs>,
    ) -> (app: OrderBookApp<F, P>)
        requires
            current matches Some(store) ==> layouts::have_room(store@.profiles),
        ensures
            is_start(app),
            app.pipeline.is_fresh("btcusdt"@),
            app.desk@ == desk::opened(
                desk::store_from(desk::saved_view(current), first, oldest),
                current is None && (first is Some || oldest is Some),
            ),
            workspace::maps_panes(app.desk@.dock, app.desk.pane_tile_ids),
            forall|pane: PaneKind| #[trigger] app.desk.pane_tile_ids.at(pane) is Some,
            forall|m: Model<F>| #[trigger] arith::describes(m, *a) ==> are_start_figures(m, app),
    {
        proof {
            let view = desk::saved_view(current);
            assert(current matches Some(store) ==> store.profiles.len() == store@.profiles.len());
            desk::law_loaded_store_is_in_order(view, first, oldest);
            desk::lemma_store_in_order_has_room(desk::store_from(view, first, oldest));
        }
        let (store, persist): (LayoutStoreV2, bool) = load_store(current, first, oldest);
        OrderBookApp {
            picker: SymbolPicker::new(),
            desk: LayoutDesk::new(store, persist),
            bin_width_input: "1".to_string(),
            active_symbol: "btcusdt".to_string(),
            active_bin_width: arith::ratio(a, 1, 1),
            impact_notional_usd: arith::ratio(a, 10_000, 1),
            impact_notional_input: "10000".to_string(),
            impact_side_is_buy: true,
            tape: TapeSettings::new(a),
            events: EventSettings { show_infinity: true, highlight_overfill: true },
            fill_kill_hover_ts: None,
            heatmap_min_qty: arith::zero(a),
            heatmap_min_qty_input: "0".to_string(),
            lens: Lens::new(a),
            grid: HeatGrid::new(),
            render_key: None,
            watch: DesyncWatch::new(),
            show_perf_overlay: true,
            perf: PerfStats::new(a),
            pipeline: StrategyPipeline::new(a, "btcusdt"),
        }
    }

    /// Starts over with what a user has entered, and returns what to connect to.
    /// The layouts and the settings of the panels stay.
    pub fn reconnect<A: Arithmetic<F>>(&mut self, a: &A) -> (request: ConnectRequest<F>)
        ensures
            is_restarted(*old(self), *final(self), request),
            forall|m: Model<F>| #[trigger]
                arith::describes(m, *a) ==> are_restart_figures(
                    m,
                    *old(self),
                    *final(self),
                    request,
                ),
    {
        let request: ConnectRequest<F> = connect_request(
            a,
            &self.picker.query,
            &self.picker.symbol_input,
            &self.bin_width_input,
        );
        self.picker.symbol_input = request.symbol_input.clone();
        self.pipeline.restart(a, &request.entered_symbol);
        self.active_symbol = request.symbol.clone();
        self.active_bin_width = request.bin_width;
        self.lens = Lens::new(a);
        self.grid = HeatGrid::new();
        self.render_key = None;
        self.fill_kill_hover_ts = None;
        self.watch = DesyncWatch::new();
        request
    }

    /// Begins a frame, `idle_ms` after the last touch: takes over the notional
    /// that a user has entered, and returns the milliseconds to the next frame.
    pub fn begin_frame<A: Arithmetic<F>>(&mut self, a: &A, idle_ms: u64) -> (next_ms: u64)
        ensures
            next_ms == (if idle_ms < perf::INTERACTION_DECAY_MS {
                perf::REPAINT_MS_ACTIVE
            } else {
                perf::REPAINT_MS_IDLE
            }),
            *final(self) == (OrderBookApp {
                perf: final(self).perf,
                impact_notional_usd: final(self).impact_notional_usd,
                ..*old(self)
            }),
            forall|m: Model<F>| #[trigger]
                arith::describes(m, *a) ==> {
                    &&& final(self).perf == (PerfStats {
                        snapshot: PerfWindowSnapshot {
                            repaint_target_ms: m.greater(m.count(next_ms), m.zero()),
                            ..old(self).perf.snapshot
                        },
                        ..old(self).perf
                    })
                    &&& final(self).impact_notional_usd == match (m.parse)(
                        text::trim(old(self).impact_notional_input@),
                    ) {
                        Ok(value) => m.greater(value, m.zero()),
                        Err(_) => old(self).impact_notional_usd,
                    }
                },
    {
        let next_ms: u64 = repaint_ms(idle_ms);
        self.perf.set_repaint_target_ms(a, arith::count(a, next_ms));
        self.impact_notional_usd = read_amount(
            a,
            &self.impact_notional_input,
            self.impact_notional_usd,
        );
        next_ms
    }

    /// Follows the market for a frame: connects again where the session has been
    /// out of step for too long, and returns what to connect to; else moves the
    /// heatmap along and brings the layouts in line.
    pub fn follow_market<A: Arithmetic<F>>(
        &mut self,
        a: &A,
        connected: bool,
        status: &str,
        now_ms: u64,
        mid: F,
        bids: &Vec<(F, F)>,
        asks: &Vec<(F, F)>,
        tick_size: F,
    ) -> (request: Option<ConnectRequest<F>>)
        requires
            now_ms + session::RECONNECT_AFTER_MS <= u64::MAX,
        ensures
            request is Some <==> session::is_time(
                old(self).watch,
                session::is_desynced(connected, status@),
                now_ms,
            ),
            request matches Some(r) ==> is_restarted(*old(self), *final(self), r),
            request is None ==> {
                &&& final(self).watch == session::watched(
                    old(self).watch,
                    session::is_desynced(connected, status@),
                    now_ms,
                )
                &&& final(self).desk@ == desk::synced(old(self).desk@)
                &&& final(self).desk.pane_tile_ids == old(self).desk.pane_tile_ids
                &&& *final(self) == (OrderBookApp {
                    watch: final(self).watch,
                    lens: final(self).lens,
                    desk: final(self).desk,
                    ..*old(self)
                })
            },
            forall|m: Model<F>| #[trigger]
                arith::describes(m, *a) ==> match request {
                    Some(r) => are_restart_figures(m, *old(self), *final(self), r),
                    None => final(self).lens == lens::followed(
                        m,
                        old(self).lens,
                        mid,
                        bids@,
                        asks@,
                        tick_size,
                        old(self).active_bin_width,
                    ),
                },
    {
        if self.watch.observe(connected, status, now_ms) {
            let request: ConnectRequest<F> = self.reconnect(a);
            return Some(request);
        }
        self.lens.follow(a, mid, bids, asks, tick_size, self.active_bin_width);
        self.desk.sync_profile_indices();
        None
    }
}

} // verus!
