//! The charts of fills and kills over time, and the curve of the equity.

use vstd::prelude::*;

use crate::arith;
use crate::arith::{Arithmetic, Model, Rounding, Screen, Style};
use crate::geometry;
use crate::geometry::{fraction, project_level_y, project_time_x, time_span, Area, Spot};
use crate::picker::{tone, Tone};
use crate::picker;
use crate::signal::{BurstDirection, FillKillSample, RatioValue};
use crate::text;

verus! {

// ---------------------------------------------------------------------------
// Time domain
// ---------------------------------------------------------------------------

/// What has been filled and killed in all over the rolling window.
#[derive(Clone, Copy, Debug)]
pub struct CumulativeSample<F> {
    pub timestamp_ms: u64,
    pub cum_fill_qty: F,
    pub cum_kill_qty: F,
    pub ratio: RatioValue<F>,
}

/// The times of the cumulative samples.
pub open spec fn cumulative_times<F>(samples: Seq<CumulativeSample<F>>) -> Seq<u64> {
    Seq::new(samples.len(), |i: int| samples[i].timestamp_ms)
}

/// The times of the events.
pub open spec fn event_times<F>(samples: Seq<FillKillSample<F>>) -> Seq<u64> {
    Seq::new(samples.len(), |i: int| samples[i].timestamp_ms)
}

/// The place of the first time that is not before `t`.
pub open spec fn first_from(times: Seq<u64>, t: int) -> int
    decreases times.len(),
{
    if times.len() == 0 || times[0] >= t {
        0
    } else {
        1 + first_from(times.skip(1), t)
    }
}

/// The span of time that both charts show, and the samples that lie in it: from
/// a place up to one that is no longer in it.
#[derive(Clone, Copy, Debug)]
pub struct TimeDomain {
    pub start_ms: u64,
    pub end_ms: u64,
    pub cumulative_from: usize,
    pub cumulative_to: usize,
    pub events_from: usize,
    pub events_to: usize,
}

/// The latest of the last times, if there is one.
pub open spec fn last_time(cumulative: Seq<u64>, events: Seq<u64>) -> Option<u64> {
    if cumulative.len() == 0 && events.len() == 0 {
        None
    } else if cumulative.len() == 0 {
        Some(events.last())
    } else if events.len() == 0 || cumulative.last() >= events.last() {
        Some(cumulative.last())
    } else {
        Some(events.last())
    }
}

/// The span that ends with the latest sample and is as long as the window.
pub open spec fn domain_of(cumulative: Seq<u64>, events: Seq<u64>, window_ms: u64) -> TimeDomain {
    match last_time(cumulative, events) {
        None => TimeDomain {
            start_ms: 0,
            end_ms: 1,
            cumulative_from: 0,
            cumulative_to: 0,
            events_from: 0,
            events_to: 0,
        },
        Some(last) => {
            let start: int = if last > window_ms {
                last - window_ms
            } else {
                0
            };
            let end: int = if last > start {
                last as int
            } else if start < u64::MAX {
                start + 1
            } else {
                start
            };
            TimeDomain {
                start_ms: start as u64,
                end_ms: end as u64,
                cumulative_from: first_from(cumulative, start) as usize,
                cumulative_to: first_from(cumulative, end + 1) as usize,
                events_from: first_from(events, start) as usize,
                events_to: first_from(events, end + 1) as usize,
            }
        },
    }
}

proof fn lemma_first_from(times: Seq<u64>, t: int, at: int)
    requires
        0 <= at <= times.len(),
        forall|i: int| 0 <= i < at ==> #[trigger] times[i] < t,
        at < times.len() ==> times[at] >= t,
    ensures
        first_from(times, t) == at,
    decreases times.len(),
{
    if at > 0 {
        let rest = times.skip(1);
        assert(times[0] < t);
        assert forall|i: int| 0 <= i < at - 1 implies #[trigger] rest[i] < t by {
            assert(rest[i] == times[i + 1]);
        }
        if at - 1 < rest.len() {
            assert(rest[at - 1] == times[at]);
        }
        lemma_first_from(rest, t, at - 1);
    }
}

proof fn lemma_first_from_bounds(times: Seq<u64>, t: int, u: int)
    requires
        t <= u,
    ensures
        0 <= first_from(times, t) <= first_from(times, u) <= times.len(),
    decreases times.len(),
{
    if times.len() > 0 {
        lemma_first_from_bounds(times.skip(1), t, u);
    }
}

/// The place of the first cumulative sample at `t` or after it, or after `t`.
fn find_cumulative<F: Copy>(samples: &Vec<CumulativeSample<F>>, t: u64, after: bool) -> (at: usize)
    ensures
        at == first_from(
            cumulative_times(samples@),
            if after {
                t + 1
            } else {
                t as int
            },
        ),
        at <= samples.len(),
{
    let ghost times = cumulative_times(samples@);
    let mut at: usize = 0;
    while at < samples.len() && (samples[at].timestamp_ms < t || (after && samples[at].timestamp_ms
        == t))
        invariant
            at <= samples.len(),
            times == cumulative_times(samples@),
            forall|i: int|
                0 <= i < at ==> #[trigger] times[i] < (if after {
                    t + 1
                } else {
                    t as int
                }),
        decreases samples.len() - at,
    {
        at += 1;
    }
    proof {
        lemma_first_from(
            times,
            if after {
                t + 1
            } else {
                t as int
            },
            at as int,
        );
    }
    at
}

/// The place of the first event at `t` or after it, or after `t`.
fn find_event<F: Copy>(samples: &Vec<FillKillSample<F>>, t: u64, after: bool) -> (at: usize)
    ensures
        at == first_from(
            event_times(samples@),
            if after {
                t + 1
            } else {
                t as int
            },
        ),
        at <= samples.len(),
{
    let ghost times = event_times(samples@);
    let mut at: usize = 0;
    while at < samples.len() && (samples[at].timestamp_ms < t || (after && samples[at].timestamp_ms
        == t))
        invariant
            at <= samples.len(),
            times == event_times(samples@),
            forall|i: int|
                0 <= i < at ==> #[trigger] times[i] < (if after {
                    t + 1
                } else {
                    t as int
                }),
        decreases samples.len() - at,
    {
        at += 1;
    }
    proof {
        lemma_first_from(
            times,
            if after {
                t + 1
            } else {
                t as int
            },
            at as int,
        );
    }
    at
}

/// The span of time that both charts show, and the samples that lie in it.
pub fn compute_shared_time_domain<F: Copy>(
    cumulative: &Vec<CumulativeSample<F>>,
    events: &Vec<FillKillSample<F>>,
    window_ms: u64,
) -> (domain: TimeDomain)
    ensures
        domain == domain_of(cumulative_times(cumulative@), event_times(events@), window_ms),
        domain.cumulative_from <= domain.cumulative_to <= cumulative.len(),
        domain.events_from <= domain.events_to <= events.len(),
{
    let ghost cs = cumulative_times(cumulative@);
    let ghost es = event_times(events@);
    if cumulative.len() == 0 && events.len() == 0 {
        return TimeDomain {
            start_ms: 0,
            end_ms: 1,
            cumulative_from: 0,
            cumulative_to: 0,
            events_from: 0,
            events_to: 0,
        };
    }
    let mut last: u64 = 0;
    if cumulative.len() > 0 {
        last = cumulative[cumulative.len() - 1].timestamp_ms;
    }
    if events.len() > 0 && events[events.len() - 1].timestamp_ms > last {
        last = events[events.len() - 1].timestamp_ms;
    }
    proof {
        assert(last_time(cs, es) == Some(last));
    }
    let start: u64 = last.saturating_sub(window_ms);
    let end: u64 = if last <= start {
        start.saturating_add(1)
    } else {
        last
    };
    proof {
        lemma_first_from_bounds(cs, start as int, end + 1);
        lemma_first_from_bounds(es, start as int, end + 1);
    }
    TimeDomain {
        start_ms: start,
        end_ms: end,
        cumulative_from: find_cumulative(cumulative, start, false),
        cumulative_to: find_cumulative(cumulative, end, true),
        events_from: find_event(events, start, false),
        events_to: find_event(events, end, true),
    }
}

/// Of times that never go back, those from the first place up to the second are
/// the ones from `t` to `u`, and no others.
pub proof fn law_domain_holds_its_times(times: Seq<u64>, t: int, u: int)
    requires
        forall|i: int, j: int| 0 <= i <= j < times.len() ==> times[i] <= times[j],
        t <= u,
    ensures
        0 <= first_from(times, t) <= first_from(times, u + 1) <= times.len(),
        forall|i: int|
            0 <= i < times.len() ==> (first_from(times, t) <= i < first_from(times, u + 1)
                <==> t <= #[trigger] times[i] <= u),
{
    lemma_first_from_bounds(times, t, u + 1);
    lemma_parts(times, t);
    lemma_parts(times, u + 1);
}

proof fn lemma_parts(times: Seq<u64>, t: int)
    requires
        forall|i: int, j: int| 0 <= i <= j < times.len() ==> times[i] <= times[j],
    ensures
        forall|i: int|
            0 <= i < times.len() ==> (i < first_from(times, t) <==> #[trigger] times[i] < t),
        0 <= first_from(times, t),
    decreases times.len(),
{
    if times.len() > 0 {
        let rest = times.skip(1);
        assert forall|i: int, j: int| 0 <= i <= j < rest.len() implies rest[i] <= rest[j] by {
            assert(rest[i] == times[i + 1] && rest[j] == times[j + 1]);
        }
        lemma_parts(rest, t);
        assert forall|i: int| 0 <= i < times.len() implies (i < first_from(times, t)
            <==> #[trigger] times[i] < t) by {
            assert(times[0] <= times[i]);
            if i > 0 {
                assert(rest[i - 1] == times[i]);
            }
        }
    }
}

// ---------------------------------------------------------------------------
// Plots
// ---------------------------------------------------------------------------

/// The plot within a panel, with a margin above it.
pub open spec fn plot_of<P>(n: Model<P>, panel: Area<P>, above: P) -> Area<P> {
    Area {
        left: n.plus(panel.left, n.ratio(52, 1)),
        top: n.plus(panel.top, above),
        right: n.minus(panel.right, n.ratio(8, 1)),
        bottom: n.minus(panel.bottom, n.ratio(18, 1)),
    }
}

/// Whether a plot is too small to be drawn.
pub open spec fn is_tiny<P>(n: Model<P>, plot: Area<P>) -> bool {
    n.less_eq(plot.spec_width(n), n.ratio(2, 1)) || n.less_eq(
        plot.spec_height(n),
        n.ratio(2, 1),
    )
}

/// The plot within a panel, if there is room for it.
pub fn plot_area<P: Copy, A: Arithmetic<P>>(a: &A, panel: Area<P>, above: P) -> (plot: Option<
    Area<P>,
>)
    ensures
        forall|n: Model<P>| #[trigger]
            arith::describes(n, *a) ==> plot == if is_tiny(n, plot_of(n, panel, above)) {
                None
            } else {
                Some(plot_of(n, panel, above))
            },
{
    let plot = Area {
        left: arith::plus(a, panel.left, arith::ratio(a, 52, 1)),
        top: arith::plus(a, panel.top, above),
        right: arith::minus(a, panel.right, arith::ratio(a, 8, 1)),
        bottom: arith::minus(a, panel.bottom, arith::ratio(a, 18, 1)),
    };
    let least: P = arith::ratio(a, 2, 1);
    if arith::less_eq(a, plot.width(a), least) || arith::less_eq(a, plot.height(a), least) {
        None
    } else {
        Some(plot)
    }
}

/// The time under a pointer over a plot.
pub open spec fn pointed_time<F, P>(
    o: Screen<F, P>,
    plot: Area<P>,
    x: P,
    start_ms: u64,
    end_ms: u64,
) -> F {
    let m = o.fine;
    let along = (o.widen)(
        geometry::fraction_of(o.coarse, x, plot.left, plot.spec_width(o.coarse)),
    );
    m.plus(
        m.count(start_ms),
        m.times(along, m.count(geometry::span_of(start_ms, end_ms))),
    )
}

/// The time under a pointer, if it is over the plot.
pub fn hovered_time<F: Copy, P: Copy, A: Arithmetic<F> + Arithmetic<P> + Rounding<F, P>>(
    a: &A,
    plot: Area<P>,
    pointer: Option<Spot<P>>,
    start_ms: u64,
    end_ms: u64,
) -> (time: Option<F>)
    ensures
        pointer is None ==> time is None,
        forall|o: Screen<F, P>| #[trigger]
            arith::depicts(o, *a) ==> time == match pointer {
                Some(spot) if plot.spec_holds(o.coarse, spot) => Some(
                    pointed_time(o, plot, spot.x, start_ms, end_ms),
                ),
                _ => None,
            },
{
    match pointer {
        Some(spot) => if plot.holds(a, spot) {
            let narrow: P = fraction(a, spot.x, plot.left, plot.width(a));
            let along: F = arith::widen(a, narrow);
            let span: F = arith::count(a, time_span(start_ms, end_ms));
            let start: F = arith::count(a, start_ms);
            Some(arith::plus(a, start, arith::times(a, along, span)))
        } else {
            None
        },
        None => None,
    }
}

/// Where the line of a time stands across a plot, if it lies in it.
pub fn hover_line<F: Copy, P: Copy, A: Arithmetic<F> + Arithmetic<P> + Rounding<F, P>>(
    a: &A,
    plot: Area<P>,
    time: F,
    start_ms: u64,
    end_ms: u64,
) -> (x: Option<P>)
    ensures
        forall|o: Screen<F, P>| #[trigger]
            arith::depicts(o, *a) ==> {
                let at = geometry::time_x_of(o, plot, time, start_ms, end_ms);
                x == if o.coarse.less_eq(plot.left, at) && o.coarse.less_eq(at, plot.right) {
                    Some(at)
                } else {
                    None
                }
            },
{
    let at: P = project_time_x(a, plot, time, start_ms, end_ms);
    if arith::less_eq(a, plot.left, at) && arith::less_eq(a, at, plot.right) {
        Some(at)
    } else {
        None
    }
}

// ---------------------------------------------------------------------------
// Cumulative chart
// ---------------------------------------------------------------------------

/// The greatest of zero and what was filled and killed.
pub open spec fn greatest_total<F>(m: Model<F>, samples: Seq<CumulativeSample<F>>) -> F
    decreases samples.len(),
{
    if samples.len() == 0 {
        m.zero()
    } else {
        m.greater(
            m.greater(greatest_total(m, samples.drop_last()), samples.last().cum_fill_qty),
            samples.last().cum_kill_qty,
        )
    }
}

/// The quantity at the top of the chart, at least one.
pub open spec fn top_total<F>(m: Model<F>, samples: Seq<CumulativeSample<F>>) -> F {
    m.greater(greatest_total(m, samples), m.ratio(1, 1))
}

/// The point of a total at a time.
pub open spec fn total_point<F, P>(
    o: Screen<F, P>,
    plot: Area<P>,
    domain: TimeDomain,
    top: F,
    timestamp_ms: u64,
    total: F,
) -> Spot<P> {
    Spot {
        x: geometry::time_x_of(
            o,
            plot,
            o.fine.count(timestamp_ms),
            domain.start_ms,
            domain.end_ms,
        ),
        y: geometry::level_y_of(o, plot, o.fine.over(total, top)),
    }
}

/// The cumulative chart: the lines of what was filled and killed, and the label
/// of its top.
#[derive(Debug)]
pub struct CumulativeChart<P> {
    pub fill: Vec<Spot<P>>,
    pub kill: Vec<Spot<P>>,
    pub top_label: String,
}

/// Whether the chart shows the samples.
pub open spec fn is_cumulative_chart<F, P>(
    o: Screen<F, P>,
    plot: Area<P>,
    domain: TimeDomain,
    samples: Seq<CumulativeSample<F>>,
    chart: CumulativeChart<P>,
) -> bool {
    let top = top_total(o.fine, samples);
    &&& chart.fill@ == Seq::new(
        samples.len(),
        |i: int|
            total_point(o, plot, domain, top, samples[i].timestamp_ms, samples[i].cum_fill_qty),
    )
    &&& chart.kill@ == Seq::new(
        samples.len(),
        |i: int|
            total_point(o, plot, domain, top, samples[i].timestamp_ms, samples[i].cum_kill_qty),
    )
    &&& chart.top_label@ == (o.fine.text)(top, Style::Fixed(2))
}

/// The samples of a domain.
pub open spec fn in_domain<T>(samples: Seq<T>, from: usize, to: usize) -> Seq<T> {
    samples.subrange(from as int, to as int)
}

/// The point of a total at a time.
fn point_of_total<F: Copy, P: Copy, A: Arithmetic<F> + Arithmetic<P> + Rounding<F, P>>(
    a: &A,
    plot: Area<P>,
    domain: TimeDomain,
    top: F,
    timestamp_ms: u64,
    total: F,
) -> (spot: Spot<P>)
    ensures
        forall|o: Screen<F, P>| #[trigger]
            arith::depicts(o, *a) ==> spot == total_point(
                o,
                plot,
                domain,
                top,
                timestamp_ms,
                total,
            ),
{
    let t: F = arith::count(a, timestamp_ms);
    Spot {
        x: project_time_x(a, plot, t, domain.start_ms, domain.end_ms),
        y: project_level_y(a, plot, arith::over(a, total, top)),
    }
}

/// The cumulative chart of the samples of a domain, if there is one.
pub fn cumulative_chart<F: Copy, P: Copy, A: Arithmetic<F> + Arithmetic<P> + Rounding<F, P>>(
    a: &A,
    plot: Area<P>,
    domain: TimeDomain,
    samples: &Vec<CumulativeSample<F>>,
) -> (chart: Option<CumulativeChart<P>>)
    requires
        domain.cumulative_from <= domain.cumulative_to <= samples.len(),
    ensures
        chart is None <==> domain.cumulative_from == domain.cumulative_to,
        forall|o: Screen<F, P>| #[trigger]
            arith::depicts(o, *a) ==> (chart matches Some(c) ==> is_cumulative_chart(
                o,
                plot,
                domain,
                in_domain(samples@, domain.cumulative_from, domain.cumulative_to),
                c,
            )),
{
    if domain.cumulative_from == domain.cumulative_to {
        return None;
    }
    let from: usize = domain.cumulative_from;
    let ghost shown = in_domain(samples@, domain.cumulative_from, domain.cumulative_to);
    let mut most: F = arith::zero(a);
    let mut i: usize = from;
    proof {
        assert(shown.take(0) =~= Seq::empty());
    }
    while i < domain.cumulative_to
        invariant
            from == domain.cumulative_from,
            from <= i <= domain.cumulative_to <= samples.len(),
            shown == in_domain(samples@, domain.cumulative_from, domain.cumulative_to),
            forall|o: Screen<F, P>| #[trigger]
                arith::depicts(o, *a) ==> most == greatest_total(o.fine, shown.take(i - from)),
        decreases domain.cumulative_to - i,
    {
        proof {
            assert(shown.take(i - from + 1).drop_last() =~= shown.take(i - from));
            assert(shown[i - from] == samples@[i as int]);
        }
        let sample: CumulativeSample<F> = samples[i];
        most = arith::greater(
            a,
            arith::greater(a, most, sample.cum_fill_qty),
            sample.cum_kill_qty,
        );
        i += 1;
    }
    proof {
        assert(shown.take(shown.len() as int) =~= shown);
    }
    let top: F = arith::greater(a, most, arith::ratio(a, 1, 1));
    let mut fill: Vec<Spot<P>> = Vec::new();
    let mut kill: Vec<Spot<P>> = Vec::new();
    let mut k: usize = from;
    while k < domain.cumulative_to
        invariant
            from == domain.cumulative_from,
            from <= k <= domain.cumulative_to <= samples.len(),
            shown == in_domain(samples@, domain.cumulative_from, domain.cumulative_to),
            fill.len() == k - from,
            kill.len() == k - from,
            forall|o: Screen<F, P>, j: int|
                #![trigger arith::depicts(o, *a), fill@[j]]
                arith::depicts(o, *a) && 0 <= j < k - from ==> fill@[j] == total_point(
                    o,
                    plot,
                    domain,
                    top,
                    shown[j].timestamp_ms,
                    shown[j].cum_fill_qty,
                ),
            forall|o: Screen<F, P>, j: int|
                #![trigger arith::depicts(o, *a), kill@[j]]
                arith::depicts(o, *a) && 0 <= j < k - from ==> kill@[j] == total_point(
                    o,
                    plot,
                    domain,
                    top,
                    shown[j].timestamp_ms,
                    shown[j].cum_kill_qty,
                ),
        decreases domain.cumulative_to - k,
    {
        proof {
            assert(shown[k - from] == samples@[k as int]);
        }
        let sample: CumulativeSample<F> = samples[k];
        fill.push(
            point_of_total(a, plot, domain, top, sample.timestamp_ms, sample.cum_fill_qty),
        );
        kill.push(
            point_of_total(a, plot, domain, top, sample.timestamp_ms, sample.cum_kill_qty),
        );
        k += 1;
    }
    let top_label: String = arith::text(a, top, Style::Fixed(2));
    let chart = CumulativeChart { fill, kill, top_label };
    proof {
        assert forall|o: Screen<F, P>| #[trigger] arith::depicts(o, *a) implies is_cumulative_chart(
            o,
            plot,
            domain,
            shown,
            chart,
        ) by {
            assert(top == top_total(o.fine, shown));
            assert(chart.fill@ =~= Seq::new(
                shown.len(),
                |i: int|
                    total_point(
                        o,
                        plot,
                        domain,
                        top,
                        shown[i].timestamp_ms,
                        shown[i].cum_fill_qty,
                    ),
            ));
            assert(chart.kill@ =~= Seq::new(
                shown.len(),
                |i: int|
                    total_point(
                        o,
                        plot,
                        domain,
                        top,
                        shown[i].timestamp_ms,
                        shown[i].cum_kill_qty,
                    ),
            ));
        }
    }
    Some(chart)
}

// ---------------------------------------------------------------------------
// Event chart
// ---------------------------------------------------------------------------

/// What the event chart is set to show.
#[derive(Clone, Copy, Debug)]
pub struct EventSettings {
    pub show_infinity: bool,
    pub highlight_overfill: bool,
}

/// The mark over the chart of a burst in which nothing was killed.
#[derive(Clone, Copy, Debug)]
pub struct InfinityMark {
    /// Whether the sign for infinity stands over the mark.
    pub is_labelled: bool,
    pub is_overfill: bool,
}

/// The dot of a burst.
#[derive(Clone, Copy, Debug)]
pub struct EventDot<P> {
    pub y: P,
    pub radius: P,
    pub direction: BurstDirection,
    pub is_overfill: bool,
}

/// What the chart shows of a burst.
#[derive(Clone, Copy, Debug)]
pub struct EventMark<P> {
    pub x: P,
    pub infinity: Option<InfinityMark>,
    pub dot: Option<EventDot<P>>,
}

/// How far up a signed logarithm stands in a chart from minus three to three.
pub open spec fn log_level<F>(m: Model<F>, log_ratio: F) -> F {
    m.over(m.plus(log_ratio, m.ratio(3, 1)), m.times(m.ratio(2, 1), m.ratio(3, 1)))
}

/// How far up a signed logarithm stands in a chart from minus three to three.
fn level_of_log<F: Copy, A: Arithmetic<F>>(a: &A, log_ratio: F) -> (level: F)
    ensures
        forall|m: Model<F>| #[trigger]
            arith::describes(m, *a) ==> level == log_level(m, log_ratio),
{
    let three: F = arith::ratio(a, 3, 1);
    let whole: F = arith::times(a, arith::ratio(a, 2, 1), three);
    arith::over(a, arith::plus(a, log_ratio, three), whole)
}

/// The radius of a dot, the greatest fill being the greatest.
pub open spec fn dot_radius<F, P>(o: Screen<F, P>, fill_qty: F, most: F) -> P {
    let n = o.coarse;
    if o.fine.less(o.fine.zero(), most) {
        n.plus(
            n.ratio(2, 1),
            n.times((o.narrow)(o.fine.unit(o.fine.over(fill_qty, most))), n.ratio(4, 1)),
        )
    } else {
        n.ratio(3, 1)
    }
}

/// Whether a burst gets a mark over the chart.
pub open spec fn is_infinite<F>(settings: EventSettings, sample: FillKillSample<F>) -> bool {
    settings.show_infinity && sample.ratio is Infinite
}

/// Where a burst stands across the chart.
pub open spec fn event_x<F, P>(
    o: Screen<F, P>,
    plot: Area<P>,
    domain: TimeDomain,
    sample: FillKillSample<F>,
) -> P {
    geometry::time_x_of(
        o,
        plot,
        o.fine.count(sample.timestamp_ms),
        domain.start_ms,
        domain.end_ms,
    )
}

/// Where the last sign for infinity stands after the first bursts.
pub open spec fn last_label_x<F, P>(
    o: Screen<F, P>,
    plot: Area<P>,
    domain: TimeDomain,
    settings: EventSettings,
    samples: Seq<FillKillSample<F>>,
) -> P
    decreases samples.len(),
{
    if samples.len() == 0 {
        o.coarse.neg_infinity()
    } else {
        let before = last_label_x(o, plot, domain, settings, samples.drop_last());
        let x = event_x(o, plot, domain, samples.last());
        if is_infinite(settings, samples.last()) && o.coarse.less_eq(
            o.coarse.ratio(24, 1),
            o.coarse.minus(x, before),
        ) {
            x
        } else {
            before
        }
    }
}

/// What the chart shows of the last of the bursts: signs for infinity keep a
/// distance from one another.
pub open spec fn event_mark<F, P>(
    o: Screen<F, P>,
    plot: Area<P>,
    domain: TimeDomain,
    settings: EventSettings,
    most: F,
    samples: Seq<FillKillSample<F>>,
) -> EventMark<P> {
    let sample = samples.last();
    let before = last_label_x(o, plot, domain, settings, samples.drop_last());
    let x = event_x(o, plot, domain, sample);
    let is_overfill = settings.highlight_overfill && sample.overfill;
    EventMark {
        x,
        infinity: if is_infinite(settings, sample) {
            Some(
                InfinityMark {
                    is_labelled: o.coarse.less_eq(
                        o.coarse.ratio(24, 1),
                        o.coarse.minus(x, before),
                    ),
                    is_overfill,
                },
            )
        } else {
            None
        },
        dot: match sample.signed_log_ratio {
            Some(log_ratio) => Some(
                EventDot {
                    y: geometry::level_y_of(o, plot, log_level(o.fine, log_ratio)),
                    radius: dot_radius(o, sample.fill_qty, most),
                    direction: sample.direction,
                    is_overfill,
                },
            ),
            None => None,
        },
    }
}

/// What was filled in the bursts.
pub open spec fn fills<F>(samples: Seq<FillKillSample<F>>) -> Seq<F> {
    Seq::new(samples.len(), |i: int| samples[i].fill_qty)
}

/// What the chart shows of the bursts.
pub open spec fn event_marks_of<F, P>(
    o: Screen<F, P>,
    plot: Area<P>,
    domain: TimeDomain,
    settings: EventSettings,
    samples: Seq<FillKillSample<F>>,
) -> Seq<EventMark<P>> {
    Seq::new(
        samples.len(),
        |i: int|
            event_mark(
                o,
                plot,
                domain,
                settings,
                o.fine.peak(fills(samples)),
                samples.take(i + 1),
            ),
    )
}

/// What the chart shows of the bursts of a domain.
pub fn event_marks<F: Copy, P: Copy, A: Arithmetic<F> + Arithmetic<P> + Rounding<F, P>>(
    a: &A,
    plot: Area<P>,
    domain: TimeDomain,
    settings: EventSettings,
    samples: &Vec<FillKillSample<F>>,
) -> (marks: Vec<EventMark<P>>)
    requires
        domain.events_from <= domain.events_to <= samples.len(),
    ensures
        marks.len() == domain.events_to - domain.events_from,
        forall|o: Screen<F, P>| #[trigger]
            arith::depicts(o, *a) ==> marks@ == event_marks_of(
                o,
                plot,
                domain,
                settings,
                in_domain(samples@, domain.events_from, domain.events_to),
            ),
{
    let from: usize = domain.events_from;
    let ghost shown = in_domain(samples@, domain.events_from, domain.events_to);
    let mut sizes: Vec<F> = Vec::new();
    let mut i: usize = from;
    while i < domain.events_to
        invariant
            from == domain.events_from,
            from <= i <= domain.events_to <= samples.len(),
            shown == in_domain(samples@, domain.events_from, domain.events_to),
            sizes@ == fills(shown).take(i - from),
        decreases domain.events_to - i,
    {
        sizes.push(samples[i].fill_qty);
        proof {
            assert(fills(shown)[i - from] == samples@[i as int].fill_qty);
            assert(fills(shown).take(i - from).push(fills(shown)[i - from]) =~= fills(shown).take(
                i - from + 1,
            ));
        }
        i += 1;
    }
    proof {
        assert(fills(shown).take(shown.len() as int) =~= fills(shown));
    }
    let most: F = arith::peak(a, &sizes);
    let zero: F = arith::zero(a);
    let gap: P = arith::ratio(a, 24, 1);
    let mut last: P = arith::neg_infinity(a);
    let mut marks: Vec<EventMark<P>> = Vec::new();
    let mut k: usize = from;
    proof {
        assert(shown.take(0) =~= Seq::empty());
    }
    while k < domain.events_to
        invariant
            from == domain.events_from,
            from <= k <= domain.events_to <= samples.len(),
            shown == in_domain(samples@, domain.events_from, domain.events_to),
            marks.len() == k - from,
            forall|o: Screen<F, P>| #[trigger]
                arith::depicts(o, *a) ==> {
                    &&& most == o.fine.peak(fills(shown))
                    &&& zero == o.fine.zero()
                    &&& gap == o.coarse.ratio(24, 1)
                    &&& last == last_label_x(o, plot, domain, settings, shown.take(k - from))
                },
            forall|o: Screen<F, P>, j: int|
                #![trigger arith::depicts(o, *a), marks@[j]]
                arith::depicts(o, *a) && 0 <= j < k - from ==> marks@[j] == event_mark(
                    o,
                    plot,
                    domain,
                    settings,
                    o.fine.peak(fills(shown)),
                    shown.take(j + 1),
                ),
        decreases domain.events_to - k,
    {
        proof {
            assert(shown.take(k - from + 1).drop_last() =~= shown.take(k - from));
            assert(shown.take(k - from + 1).last() == samples@[k as int]);
        }
        let sample: FillKillSample<F> = samples[k];
        let t: F = arith::count(a, sample.timestamp_ms);
        let x: P = project_time_x(a, plot, t, domain.start_ms, domain.end_ms);
        let is_overfill: bool = settings.highlight_overfill && sample.overfill;
        let endless: bool = match sample.ratio {
            RatioValue::Infinite => settings.show_infinity,
            _ => false,
        };
        let mut infinity: Option<InfinityMark> = None;
        if endless {
            let is_labelled: bool = arith::less_eq(a, gap, arith::minus(a, x, last));
            infinity = Some(InfinityMark { is_labelled, is_overfill });
            if is_labelled {
                last = x;
            }
        }
        let dot: Option<EventDot<P>> = match sample.signed_log_ratio {
            Some(log_ratio) => {
                let radius: P = if arith::less(a, zero, most) {
                    let share: F = arith::unit(a, arith::over(a, sample.fill_qty, most));
                    let part: P = arith::narrow(a, share);
                    let more: P = arith::times(a, part, arith::ratio(a, 4, 1));
                    arith::plus(a, arith::ratio(a, 2, 1), more)
                } else {
                    arith::ratio(a, 3, 1)
                };
                Some(
                    EventDot {
                        y: project_level_y(a, plot, level_of_log(a, log_ratio)),
                        radius,
                        direction: sample.direction,
                        is_overfill,
                    },
                )
            },
            None => None,
        };
        marks.push(EventMark { x, infinity, dot });
        k += 1;
    }
    proof {
        assert forall|o: Screen<F, P>| #[trigger] arith::depicts(o, *a) implies marks@
            == event_marks_of(o, plot, domain, settings, shown) by {
            assert(marks@ =~= event_marks_of(o, plot, domain, settings, shown));
        }
    }
    marks
}

/// A line across the event chart: how far down it stands, and its label.
#[derive(Debug)]
pub struct LevelLine<P> {
    pub y: P,
    pub label: String,
    pub is_zero: bool,
}

/// The label of a level from minus two to two.
pub open spec fn level_label(level: int) -> Seq<char> {
    if level == -2 {
        "-2"@
    } else if level == -1 {
        "-1"@
    } else if level == 0 {
        "0"@
    } else if level == 1 {
        "+1"@
    } else {
        "+2"@
    }
}

/// Whether a line stands for a level.
pub open spec fn is_level_line<F, P>(
    o: Screen<F, P>,
    plot: Area<P>,
    level: int,
    line: LevelLine<P>,
) -> bool {
    let n = o.coarse;
    &&& line.y == n.minus(
        plot.bottom,
        n.times(
            (o.narrow)(log_level(o.fine, o.fine.ratio(level, 1))),
            plot.spec_height(n),
        ),
    )
    &&& line.label@ == level_label(level)
    &&& line.is_zero == (level == 0)
}

/// The five lines across the event chart, from minus two up to two.
pub fn level_lines<F: Copy, P: Copy, A: Arithmetic<F> + Arithmetic<P> + Rounding<F, P>>(
    a: &A,
    plot: Area<P>,
) -> (lines: Vec<LevelLine<P>>)
    ensures
        lines.len() == 5,
        forall|o: Screen<F, P>, i: int|
            #![trigger arith::depicts(o, *a), lines@[i]]
            arith::depicts(o, *a) && 0 <= i < 5 ==> is_level_line::<F, P>(
                o,
                plot,
                i - 2,
                lines@[i],
            ),
{
    let height: P = plot.height(a);
    let mut lines: Vec<LevelLine<P>> = Vec::new();
    let mut i: i64 = 0;
    while i < 5
        invariant
            0 <= i <= 5,
            lines.len() == i,
            forall|o: Screen<F, P>| #[trigger]
                arith::depicts(o, *a) ==> height == plot.spec_height(o.coarse),
            forall|o: Screen<F, P>, k: int|
                #![trigger arith::depicts(o, *a), lines@[k]]
                arith::depicts(o, *a) && 0 <= k < i ==> is_level_line::<F, P>(
                    o,
                    plot,
                    k - 2,
                    lines@[k],
                ),
        decreases 5 - i,
    {
        let level: i64 = i - 2;
        let value: F = arith::ratio(a, level, 1);
        let part: P = arith::narrow(a, level_of_log(a, value));
        let label: &str = if level == -2 {
            "-2"
        } else if level == -1 {
            "-1"
        } else if level == 0 {
            "0"
        } else if level == 1 {
            "+1"
        } else {
            "+2"
        };
        lines.push(
            LevelLine {
                y: arith::minus(a, plot.bottom, arith::times(a, part, height)),
                label: label.to_string(),
                is_zero: level == 0,
            },
        );
        i += 1;
    }
    lines
}

// ---------------------------------------------------------------------------
// Key figures
// ---------------------------------------------------------------------------

/// The key figures of fills and kills.
#[derive(Clone, Copy, Debug)]
pub struct FillKillKpis<F> {
    pub cum_fill_qty: F,
    pub cum_kill_qty: F,
    pub cum_net_qty: F,
    pub cum_ratio: RatioValue<F>,
    pub overfill_pct: F,
}

/// The ratio as text.
pub open spec fn ratio_text<F>(m: Model<F>, ratio: RatioValue<F>) -> Seq<char> {
    match ratio {
        RatioValue::Na => "N/A"@,
        RatioValue::Infinite => "∞"@,
        RatioValue::Finite(value) => (m.text)(value, Style::Fixed(2)),
    }
}

/// The key figures as text.
#[derive(Debug)]
pub struct KpiLine {
    pub fill: String,
    pub kill: String,
    pub ratio: String,
    pub has_ratio: bool,
    pub net: String,
    pub net_tone: Tone,
    pub overfill: String,
}

/// Whether the texts tell the key figures.
pub open spec fn is_kpi_line<F>(m: Model<F>, kpis: FillKillKpis<F>, line: KpiLine) -> bool {
    &&& line.fill@ == "5m Fill "@ + (m.text)(kpis.cum_fill_qty, Style::Fixed(3))
    &&& line.kill@ == "5m Kill "@ + (m.text)(kpis.cum_kill_qty, Style::Fixed(3))
    &&& line.ratio@ == "5m F:K "@ + ratio_text(m, kpis.cum_ratio)
    &&& line.has_ratio == !(kpis.cum_ratio is Na)
    &&& line.net@ == "5m Net "@ + (m.text)(kpis.cum_net_qty, Style::Fixed(3))
    &&& line.net_tone == picker::tone_of(m, kpis.cum_net_qty)
    &&& line.overfill@ == "Overfill "@ + (m.text)(kpis.overfill_pct, Style::Fixed(1)) + "%"@
}

/// The key figures as text.
pub fn kpi_line<F: Copy, A: Arithmetic<F>>(a: &A, kpis: &FillKillKpis<F>) -> (line: KpiLine)
    ensures
        forall|m: Model<F>| #[trigger] arith::describes(m, *a) ==> is_kpi_line(m, *kpis, line),
{
    let mut fill: String = "5m Fill ".to_string();
    fill.append(&arith::text(a, kpis.cum_fill_qty, Style::Fixed(3)));
    let mut kill: String = "5m Kill ".to_string();
    kill.append(&arith::text(a, kpis.cum_kill_qty, Style::Fixed(3)));
    let mut ratio: String = "5m F:K ".to_string();
    let mut has_ratio: bool = true;
    match kpis.cum_ratio {
        RatioValue::Na => {
            ratio.append("N/A");
            has_ratio = false;
        },
        RatioValue::Infinite => {
            ratio.append("∞");
        },
        RatioValue::Finite(value) => {
            ratio.append(&arith::text(a, value, Style::Fixed(2)));
        },
    }
    let mut net: String = "5m Net ".to_string();
    net.append(&arith::text(a, kpis.cum_net_qty, Style::Fixed(3)));
    let mut overfill: String = "Overfill ".to_string();
    overfill.append(&arith::text(a, kpis.overfill_pct, Style::Fixed(1)));
    overfill.append("%");
    KpiLine { fill, kill, ratio, has_ratio, net, net_tone: tone(a, kpis.cum_net_qty), overfill }
}

// ---------------------------------------------------------------------------
// Equity
// ---------------------------------------------------------------------------

/// The amounts of a history of times and amounts.
pub open spec fn equities<F>(history: Seq<(u64, F)>) -> Seq<F> {
    Seq::new(history.len(), |i: int| history[i].1)
}

/// The curve of the equity: its points, the height of the line of the first
/// equity where it lies in the range, and the labels.
#[derive(Debug)]
pub struct EquityCurve<P> {
    pub points: Vec<Spot<P>>,
    pub initial_y: Option<P>,
    pub is_up: bool,
    pub top_label: String,
    pub bottom_label: String,
    pub last_label: String,
}

/// The range that the curve shows, at least a hundredth.
pub open spec fn equity_range<F>(m: Model<F>, list: Seq<F>) -> F {
    m.greater(m.minus(m.greatest(list), m.least(list)), m.ratio(1, 100))
}

/// How far down an amount stands.
pub open spec fn equity_y<F, P>(o: Screen<F, P>, plot: Area<P>, list: Seq<F>, amount: F) -> P {
    let m = o.fine;
    let n = o.coarse;
    n.minus(
        plot.bottom,
        n.times(
            (o.narrow)(m.over(m.minus(amount, m.least(list)), equity_range(m, list))),
            plot.spec_height(n),
        ),
    )
}

/// The point of the `i`-th amount.
pub open spec fn equity_point<F, P>(
    o: Screen<F, P>,
    plot: Area<P>,
    list: Seq<F>,
    i: int,
) -> Spot<P> {
    let n = o.coarse;
    let along = o.fine.over(
        o.fine.count(i as u64),
        o.fine.count((list.len() - 1) as u64),
    );
    Spot {
        x: n.plus(plot.left, n.times((o.narrow)(along), plot.spec_width(n))),
        y: equity_y(o, plot, list, list[i]),
    }
}

/// Whether the curve shows a history.
pub open spec fn is_equity_curve<F, P>(
    o: Screen<F, P>,
    plot: Area<P>,
    list: Seq<F>,
    initial: F,
    curve: EquityCurve<P>,
) -> bool {
    let m = o.fine;
    let low = m.least(list);
    let high = m.greatest(list);
    &&& curve.points@ == Seq::new(list.len(), |i: int| equity_point(o, plot, list, i))
    &&& curve.initial_y == if m.less_eq(low, initial) && m.less_eq(initial, high) {
        Some(equity_y(o, plot, list, initial))
    } else {
        None
    }
    &&& curve.is_up == m.less_eq(list.first(), list.last())
    &&& curve.top_label@ == (m.text)(high, Style::Fixed(0))
    &&& curve.bottom_label@ == (m.text)(low, Style::Fixed(0))
    &&& curve.last_label@ == (m.text)(list.last(), Style::Fixed(0))
}

/// How far down an amount stands.
fn y_of_equity<F: Copy, P: Copy, A: Arithmetic<F> + Arithmetic<P> + Rounding<F, P>>(
    a: &A,
    plot: Area<P>,
    low: F,
    range: F,
    amount: F,
) -> (y: P)
    ensures
        forall|o: Screen<F, P>| #[trigger]
            arith::depicts(o, *a) ==> y == o.coarse.minus(
                plot.bottom,
                o.coarse.times(
                    (o.narrow)(o.fine.over(o.fine.minus(amount, low), range)),
                    plot.spec_height(o.coarse),
                ),
            ),
{
    let part: P = arith::narrow(a, arith::over(a, arith::minus(a, amount, low), range));
    arith::minus(a, plot.bottom, arith::times(a, part, plot.height(a)))
}

/// The curve of a history of at least two amounts, where the plot is at least ten
/// points wide and high.
pub fn equity_curve<F: Copy, P: Copy, A: Arithmetic<F> + Arithmetic<P> + Rounding<F, P>>(
    a: &A,
    plot: Area<P>,
    history: &Vec<(u64, F)>,
    initial: F,
) -> (curve: Option<EquityCurve<P>>)
    ensures
        history.len() < 2 ==> curve is None,
        forall|o: Screen<F, P>| #[trigger]
            arith::depicts(o, *a) ==> {
                &&& curve is Some <==> history.len() >= 2 && !o.coarse.less(
                    plot.spec_width(o.coarse),
                    o.coarse.ratio(10, 1),
                ) && !o.coarse.less(plot.spec_height(o.coarse), o.coarse.ratio(10, 1))
                &&& curve matches Some(c) ==> is_equity_curve(
                    o,
                    plot,
                    equities(history@),
                    initial,
                    c,
                )
            },
{
    if history.len() < 2 {
        return None;
    }
    let ten: P = arith::ratio(a, 10, 1);
    let width: P = plot.width(a);
    if arith::less(a, width, ten) || arith::less(a, plot.height(a), ten) {
        return None;
    }
    let ghost list = equities(history@);
    let mut amounts: Vec<F> = Vec::new();
    let mut i: usize = 0;
    while i < history.len()
        invariant
            i <= history.len(),
            list == equities(history@),
            amounts@ == list.take(i as int),
        decreases history.len() - i,
    {
        amounts.push(history[i].1);
        proof {
            assert(list.take(i as int).push(list[i as int]) =~= list.take(i as int + 1));
        }
        i += 1;
    }
    proof {
        assert(list.take(list.len() as int) =~= list);
    }
    let low: F = arith::least(a, &amounts);
    let high: F = arith::greatest(a, &amounts);
    let range: F = arith::greater(a, arith::minus(a, high, low), arith::ratio(a, 1, 100));
    let steps: F = arith::count(a, (amounts.len() - 1) as u64);
    let mut points: Vec<Spot<P>> = Vec::new();
    let mut k: usize = 0;
    while k < amounts.len()
        invariant
            k <= amounts.len(),
            amounts@ == list,
            list.len() >= 2,
            points.len() == k,
            forall|o: Screen<F, P>| #[trigger]
                arith::depicts(o, *a) ==> {
                    &&& low == o.fine.least(list)
                    &&& range == equity_range(o.fine, list)
                    &&& steps == o.fine.count((list.len() - 1) as u64)
                    &&& width == plot.spec_width(o.coarse)
                },
            forall|o: Screen<F, P>, j: int|
                #![trigger arith::depicts(o, *a), points@[j]]
                arith::depicts(o, *a) && 0 <= j < k ==> points@[j] == equity_point(
                    o,
                    plot,
                    list,
                    j,
                ),
        decreases amounts.len() - k,
    {
        let along: P = arith::narrow(a, arith::over(a, arith::count(a, k as u64), steps));
        points.push(
            Spot {
                x: arith::plus(a, plot.left, arith::times(a, along, width)),
                y: y_of_equity(a, plot, low, range, amounts[k]),
            },
        );
        k += 1;
    }
    let initial_y: Option<P> = if arith::less_eq(a, low, initial) && arith::less_eq(
        a,
        initial,
        high,
    ) {
        Some(y_of_equity(a, plot, low, range, initial))
    } else {
        None
    };
    let first: F = amounts[0];
    let last: F = amounts[amounts.len() - 1];
    let curve = EquityCurve {
        points,
        initial_y,
        is_up: arith::less_eq(a, first, last),
        top_label: arith::text(a, high, Style::Fixed(0)),
        bottom_label: arith::text(a, low, Style::Fixed(0)),
        last_label: arith::text(a, last, Style::Fixed(0)),
    };
    proof {
        assert forall|o: Screen<F, P>| #[trigger] arith::depicts(o, *a) implies is_equity_curve(
            o,
            plot,
            list,
            initial,
            curve,
        ) by {
            assert(curve.points@ =~= Seq::new(
                list.len(),
                |i: int| equity_point(o, plot, list, i),
            ));
        }
    }
    Some(curve)
}

/// The span of the charts ends with the latest sample, none comes after it, it is
/// no longer than the window, and as long where the time allows it.
pub proof fn law_domain_ends_with_the_latest(
    cumulative: Seq<u64>,
    events: Seq<u64>,
    window_ms: u64,
)
    requires
        window_ms > 0,
        cumulative.len() > 0 || events.len() > 0,
        forall|i: int, j: int|
            0 <= i <= j < cumulative.len() ==> cumulative[i] <= cumulative[j],
        forall|i: int, j: int| 0 <= i <= j < events.len() ==> events[i] <= events[j],
        cumulative.len() > 0 ==> cumulative.last() > 0,
        events.len() > 0 ==> events.last() > 0,
    ensures
        ({
            let domain = domain_of(cumulative, events, window_ms);
            &&& cumulative.contains(domain.end_ms) || events.contains(domain.end_ms)
            &&& forall|i: int|
                0 <= i < cumulative.len() ==> #[trigger] cumulative[i] <= domain.end_ms
            &&& forall|i: int| 0 <= i < events.len() ==> #[trigger] events[i] <= domain.end_ms
            &&& domain.end_ms - domain.start_ms <= window_ms
            &&& domain.end_ms >= window_ms ==> domain.end_ms - domain.start_ms == window_ms
            &&& domain.end_ms < window_ms ==> domain.start_ms == 0
        }),
{
    if cumulative.len() > 0 {
        assert(cumulative[cumulative.len() - 1] == cumulative.last());
    }
    if events.len() > 0 {
        assert(events[events.len() - 1] == events.last());
    }
}

/// In exact arithmetic the points of the equity curve run evenly from the left to
/// the right, and two of them are as far apart in height as their equities are,
/// as a part of the range, the higher equity higher up.
pub proof fn law_equity_curve_follows_the_equity<F, P>(
    o: Screen<F, P>,
    v: spec_fn(F) -> real,
    u: spec_fn(P) -> real,
    plot: Area<P>,
    list: Seq<F>,
    i: int,
    j: int,
)
    requires
        arith::is_exact(o.fine, v),
        arith::is_exact(o.coarse, u),
        forall|x: F| u(#[trigger] (o.narrow)(x)) == v(x),
        0 <= i < list.len(),
        0 <= j < list.len(),
        2 <= list.len() <= u64::MAX,
    ensures
        ({
            let (a, b) = (equity_point(o, plot, list, i), equity_point(o, plot, list, j));
            let range = v(equity_range(o.fine, list));
            let height = u(plot.bottom) - u(plot.top);
            let width = u(plot.right) - u(plot.left);
            &&& range > 0real
            &&& (u(a.x) - u(plot.left)) * (list.len() as real - 1real) == (i as real) * width
            &&& (u(a.y) - u(b.y)) * range == (v(list[j]) - v(list[i])) * height
            &&& height > 0real && v(list[i]) < v(list[j]) ==> u(b.y) < u(a.y)
        }),
{
    let m = o.fine;
    arith::lemma_fraction(m, v, 1, 100);
    let hundredth = v(m.ratio(1, 100));
    assert(hundredth > 0real) by (nonlinear_arith)
        requires
            hundredth * (100int as real) == 1int as real,
            100int as real == 100real,
            1int as real == 1real,
    ;
    let range = v(equity_range(m, list));
    let height = u(plot.bottom) - u(plot.top);
    let width = u(plot.right) - u(plot.left);
    let steps = (list.len() - 1) as real;
    assert(steps == list.len() as real - 1real);
    arith::lemma_quotient(i as real, steps);
    let along = (i as real) / steps;
    let place = i as real;
    assert((along * width) * steps == place * width) by (nonlinear_arith)
        requires
            along * steps == place,
    ;
    let low = v(m.least(list));
    let (p, q) = (v(list[i]) - low, v(list[j]) - low);
    arith::lemma_quotient(p, range);
    arith::lemma_quotient(q, range);
    let (f, g) = (p / range, q / range);
    assert((g * height - f * height) * range == (q - p) * height) by (nonlinear_arith)
        requires
            f * range == p,
            g * range == q,
    ;
    assert(height > 0real && p < q ==> f * height < g * height) by (nonlinear_arith)
        requires
            f * range == p,
            g * range == q,
            range > 0real,
    ;
}

/// In exact arithmetic the top of the cumulative chart is at least one and at
/// least every total that it shows, and no more than it has to be.
pub proof fn law_top_holds_all_totals<F>(
    m: Model<F>,
    v: spec_fn(F) -> real,
    samples: Seq<CumulativeSample<F>>,
)
    requires
        arith::is_exact(m, v),
    ensures
        ({
            let top = v(top_total(m, samples));
            &&& top >= 1real
            &&& forall|i: int|
                0 <= i < samples.len() ==> v((#[trigger] samples[i]).cum_fill_qty) <= top && v(
                    samples[i].cum_kill_qty,
                ) <= top
            &&& top == 1real || exists|i: int|
                0 <= i < samples.len() && (v((#[trigger] samples[i]).cum_fill_qty) == top || v(
                    samples[i].cum_kill_qty,
                ) == top)
        }),
{
    arith::lemma_whole_number(m, v, 1);
    lemma_greatest_total(m, v, samples);
}

proof fn lemma_greatest_total<F>(
    m: Model<F>,
    v: spec_fn(F) -> real,
    samples: Seq<CumulativeSample<F>>,
)
    requires
        arith::is_exact(m, v),
    ensures
        ({
            let top = v(greatest_total(m, samples));
            &&& top >= 0real
            &&& forall|i: int|
                0 <= i < samples.len() ==> v((#[trigger] samples[i]).cum_fill_qty) <= top && v(
                    samples[i].cum_kill_qty,
                ) <= top
            &&& top == 0real || exists|i: int|
                0 <= i < samples.len() && (v((#[trigger] samples[i]).cum_fill_qty) == top || v(
                    samples[i].cum_kill_qty,
                ) == top)
        }),
    decreases samples.len(),
{
    arith::lemma_whole_number(m, v, 0);
    if samples.len() > 0 {
        let front = samples.drop_last();
        lemma_greatest_total(m, v, front);
        let before = v(greatest_total(m, front));
        let top = v(greatest_total(m, samples));
        let n = samples.len() - 1;
        assert(samples[n] == samples.last());
        assert forall|i: int| 0 <= i < samples.len() implies v(
            (#[trigger] samples[i]).cum_fill_qty,
        ) <= top && v(samples[i].cum_kill_qty) <= top by {
            if i < n {
                assert(front[i] == samples[i]);
            }
        }
        if top == before && before != 0real {
            let i = choose|i: int|
                0 <= i < front.len() && (v((#[trigger] front[i]).cum_fill_qty) == before || v(
                    front[i].cum_kill_qty,
                ) == before);
            assert(samples[i] == front[i]);
        }
    }
}

/// In exact arithmetic a signed logarithm stands in the middle of the chart where
/// it is zero, at the bottom at minus three and at the top at three, and evenly
/// in between.
pub proof fn law_log_levels_are_even<F>(m: Model<F>, v: spec_fn(F) -> real, log_ratio: F)
    requires
        arith::is_exact(m, v),
    ensures
        6real * v(log_level(m, log_ratio)) == v(log_ratio) + 3real,
{
    arith::lemma_whole_number(m, v, 2);
    arith::lemma_whole_number(m, v, 3);
    assert(2real * 3real == 6real);
}

/// In exact arithmetic the radius of a dot grows evenly from two to six with its
/// part of the greatest fill.
pub proof fn law_dots_grow_with_the_fill<F, P>(
    o: Screen<F, P>,
    v: spec_fn(F) -> real,
    u: spec_fn(P) -> real,
    fill_qty: F,
    most: F,
)
    requires
        arith::is_exact(o.fine, v),
        arith::is_exact(o.coarse, u),
        forall|x: F| u(#[trigger] (o.narrow)(x)) == v(x),
        0real <= v(fill_qty) <= v(most),
        v(most) > 0real,
    ensures
        (u(dot_radius(o, fill_qty, most)) - 2real) * v(most) == 4real * v(fill_qty),
{
    arith::lemma_whole_number(o.fine, v, 0);
    arith::lemma_whole_number(o.fine, v, 1);
    arith::lemma_whole_number(o.coarse, u, 2);
    arith::lemma_whole_number(o.coarse, u, 4);
    let (q, t) = (v(fill_qty), v(most));
    arith::lemma_quotient(q, t);
    let part = q / t;
    assert(0real <= part <= 1real) by (nonlinear_arith)
        requires
            part * t == q,
            0real <= q <= t,
            t > 0real,
    ;
    assert((part * 4real) * t == 4real * q) by (nonlinear_arith)
        requires
            part * t == q,
    ;
}

} // verus!
