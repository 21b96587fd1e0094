//! Frame and rebuild times over windows of a second, and how soon the screen is
//! painted anew.

use vstd::prelude::*;

use crate::arith;
use crate::arith::{Arithmetic, Model};

verus! {

/// The milliseconds to the next frame when nobody touches the screen.
pub const REPAINT_MS_IDLE: u64 = 66;

/// The milliseconds to the next frame after somebody has touched the screen.
pub const REPAINT_MS_ACTIVE: u64 = 16;

/// The milliseconds for which a touch counts.
pub const INTERACTION_DECAY_MS: u64 = 200;

/// The milliseconds to the next frame, `idle_ms` after the last touch.
pub fn repaint_ms(idle_ms: u64) -> (ms: u64)
    ensures
        ms == if idle_ms < INTERACTION_DECAY_MS {
            REPAINT_MS_ACTIVE
        } else {
            REPAINT_MS_IDLE
        },
{
    if idle_ms < INTERACTION_DECAY_MS {
        REPAINT_MS_ACTIVE
    } else {
        REPAINT_MS_IDLE
    }
}

/// The figures of the last full window.
#[derive(Clone, Copy, Debug)]
pub struct PerfWindowSnapshot<F> {
    pub fps: F,
    pub frame_avg_ms: F,
    pub frame_max_ms: F,
    pub heatmap_rebuilds_per_sec: F,
    pub heatmap_rebuild_avg_ms: F,
    pub heatmap_rebuild_last_ms: F,
    pub heatmap_rebuild_max_ms: F,
    pub repaint_target_ms: F,
}

/// What has been counted in the current window.
#[derive(Clone, Copy, Debug)]
pub struct PerfStats<F> {
    pub frame_count: u32,
    pub frame_total_ms: F,
    pub frame_max_ms: F,
    pub heatmap_rebuild_count: u32,
    pub heatmap_rebuild_total_ms: F,
    pub heatmap_rebuild_max_ms: F,
    pub heatmap_rebuild_last_ms: F,
    pub snapshot: PerfWindowSnapshot<F>,
}

/// A count with one more, or the greatest count.
pub open spec fn one_more(n: u32) -> u32 {
    if n < u32::MAX {
        (n + 1) as u32
    } else {
        n
    }
}

/// Nothing counted yet.
pub open spec fn fresh<F>(m: Model<F>) -> PerfStats<F> {
    PerfStats {
        frame_count: 0,
        frame_total_ms: m.zero(),
        frame_max_ms: m.zero(),
        heatmap_rebuild_count: 0,
        heatmap_rebuild_total_ms: m.zero(),
        heatmap_rebuild_max_ms: m.zero(),
        heatmap_rebuild_last_ms: m.zero(),
        snapshot: PerfWindowSnapshot {
            fps: m.zero(),
            frame_avg_ms: m.zero(),
            frame_max_ms: m.zero(),
            heatmap_rebuilds_per_sec: m.zero(),
            heatmap_rebuild_avg_ms: m.zero(),
            heatmap_rebuild_last_ms: m.zero(),
            heatmap_rebuild_max_ms: m.zero(),
            repaint_target_ms: m.count(REPAINT_MS_IDLE),
        },
    }
}

/// The counts with one frame more.
pub open spec fn with_frame<F>(m: Model<F>, s: PerfStats<F>, elapsed_ms: F) -> PerfStats<F> {
    PerfStats {
        frame_count: one_more(s.frame_count),
        frame_total_ms: m.plus(s.frame_total_ms, elapsed_ms),
        frame_max_ms: m.greater(s.frame_max_ms, elapsed_ms),
        ..s
    }
}

/// The counts with one rebuild of the heatmap more.
pub open spec fn with_rebuild<F>(m: Model<F>, s: PerfStats<F>, elapsed_ms: F) -> PerfStats<F> {
    PerfStats {
        heatmap_rebuild_count: one_more(s.heatmap_rebuild_count),
        heatmap_rebuild_total_ms: m.plus(s.heatmap_rebuild_total_ms, elapsed_ms),
        heatmap_rebuild_max_ms: m.greater(s.heatmap_rebuild_max_ms, elapsed_ms),
        heatmap_rebuild_last_ms: elapsed_ms,
        ..s
    }
}

/// A total divided by a count, zero for a count of zero.
pub open spec fn share_of<F>(m: Model<F>, total: F, n: u32) -> F {
    if n > 0 {
        m.over(total, m.count(n as u64))
    } else {
        m.zero()
    }
}

/// The counts after the window has run for `window_s` seconds. From one second
/// on they become the figures of the last window, and a new one begins.
pub open spec fn rolled<F>(m: Model<F>, s: PerfStats<F>, window_s: F) -> PerfStats<F> {
    if m.less(window_s, m.ratio(1, 1)) {
        s
    } else {
        PerfStats {
            frame_count: 0,
            frame_total_ms: m.zero(),
            frame_max_ms: m.zero(),
            heatmap_rebuild_count: 0,
            heatmap_rebuild_total_ms: m.zero(),
            heatmap_rebuild_max_ms: m.zero(),
            heatmap_rebuild_last_ms: s.heatmap_rebuild_last_ms,
            snapshot: PerfWindowSnapshot {
                fps: m.over(m.count(s.frame_count as u64), window_s),
                frame_avg_ms: share_of(m, s.frame_total_ms, s.frame_count),
                frame_max_ms: s.frame_max_ms,
                heatmap_rebuilds_per_sec: m.over(
                    m.count(s.heatmap_rebuild_count as u64),
                    window_s,
                ),
                heatmap_rebuild_avg_ms: share_of(
                    m,
                    s.heatmap_rebuild_total_ms,
                    s.heatmap_rebuild_count,
                ),
                heatmap_rebuild_last_ms: s.heatmap_rebuild_last_ms,
                heatmap_rebuild_max_ms: s.heatmap_rebuild_max_ms,
                repaint_target_ms: s.snapshot.repaint_target_ms,
            },
        }
    }
}

/// A total divided by a count, zero for a count of zero.
fn share<F: Copy, A: Arithmetic<F>>(a: &A, total: F, n: u32) -> (r: F)
    ensures
        forall|m: Model<F>| #[trigger] arith::describes(m, *a) ==> r == share_of(m, total, n),
{
    if n > 0 {
        arith::over(a, total, arith::count(a, n as u64))
    } else {
        arith::zero(a)
    }
}

impl<F: Copy> PerfStats<F> {
    /// Nothing counted yet.
    pub fn new<A: Arithmetic<F>>(a: &A) -> (stats: PerfStats<F>)
        ensures
            forall|m: Model<F>| #[trigger] arith::describes(m, *a) ==> stats == fresh(m),
    {
        let zero: F = arith::zero(a);
        PerfStats {
            frame_count: 0,
            frame_total_ms: zero,
            frame_max_ms: zero,
            heatmap_rebuild_count: 0,
            heatmap_rebuild_total_ms: zero,
            heatmap_rebuild_max_ms: zero,
            heatmap_rebuild_last_ms: zero,
            snapshot: PerfWindowSnapshot {
                fps: zero,
                frame_avg_ms: zero,
                frame_max_ms: zero,
                heatmap_rebuilds_per_sec: zero,
                heatmap_rebuild_avg_ms: zero,
                heatmap_rebuild_last_ms: zero,
                heatmap_rebuild_max_ms: zero,
                repaint_target_ms: arith::count(a, REPAINT_MS_IDLE),
            },
        }
    }

    /// Sets the time to the next frame that the figures show, never below zero.
    pub fn set_repaint_target_ms<A: Arithmetic<F>>(&mut self, a: &A, repaint_target_ms: F)
        ensures
            forall|m: Model<F>| #[trigger]
                arith::describes(m, *a) ==> *final(self) == (PerfStats {
                    snapshot: PerfWindowSnapshot {
                        repaint_target_ms: m.greater(repaint_target_ms, m.zero()),
                        ..old(self).snapshot
                    },
                    ..*old(self)
                }),
    {
        self.snapshot.repaint_target_ms = arith::greater(a, repaint_target_ms, arith::zero(a));
    }

    /// Ends the window where it has run for a second, and tells whether it has.
    pub fn roll_window_if_ready<A: Arithmetic<F>>(&mut self, a: &A, window_s: F) -> (ended: bool)
        ensures
            !ended ==> *final(self) == *old(self),
            ended ==> final(self).frame_count == 0 && final(self).heatmap_rebuild_count == 0,
            forall|m: Model<F>| #[trigger]
                arith::describes(m, *a) ==> ended == !m.less(window_s, m.ratio(1, 1))
                    && *final(self) == rolled(m, *old(self), window_s),
    {
        if arith::less(a, window_s, arith::ratio(a, 1, 1)) {
            return false;
        }
        let frames: F = arith::count(a, self.frame_count as u64);
        let rebuilds: F = arith::count(a, self.heatmap_rebuild_count as u64);
        self.snapshot.fps = arith::over(a, frames, window_s);
        self.snapshot.frame_avg_ms = share(a, self.frame_total_ms, self.frame_count);
        self.snapshot.frame_max_ms = self.frame_max_ms;
        self.snapshot.heatmap_rebuilds_per_sec = arith::over(a, rebuilds, window_s);
        self.snapshot.heatmap_rebuild_avg_ms = share(
            a,
            self.heatmap_rebuild_total_ms,
            self.heatmap_rebuild_count,
        );
        self.snapshot.heatmap_rebuild_last_ms = self.heatmap_rebuild_last_ms;
        self.snapshot.heatmap_rebuild_max_ms = self.heatmap_rebuild_max_ms;
        let zero: F = arith::zero(a);
        self.frame_count = 0;
        self.frame_total_ms = zero;
        self.frame_max_ms = zero;
        self.heatmap_rebuild_count = 0;
        self.heatmap_rebuild_total_ms = zero;
        self.heatmap_rebuild_max_ms = zero;
        true
    }

    /// Counts a frame, `window_s` seconds after the window began, and tells
    /// whether the window has ended with it.
    pub fn record_frame<A: Arithmetic<F>>(&mut self, a: &A, elapsed_ms: F, window_s: F) -> (ended:
        bool)
        ensures
            !ended ==> final(self).frame_count == one_more(old(self).frame_count),
            forall|m: Model<F>| #[trigger]
                arith::describes(m, *a) ==> ended == !m.less(window_s, m.ratio(1, 1))
                    && *final(self) == rolled(
                    m,
                    with_frame(m, *old(self), elapsed_ms),
                    window_s,
                ),
    {
        self.frame_count = self.frame_count.saturating_add(1);
        self.frame_total_ms = arith::plus(a, self.frame_total_ms, elapsed_ms);
        self.frame_max_ms = arith::greater(a, self.frame_max_ms, elapsed_ms);
        proof {
            assert forall|m: Model<F>| #[trigger] arith::describes(m, *a) implies *self
                == with_frame(m, *old(self), elapsed_ms) by {}
        }
        self.roll_window_if_ready(a, window_s)
    }

    /// Counts a rebuild of the heatmap, `window_s` seconds after the window
    /// began, and tells whether the window has ended with it.
    pub fn record_heatmap_rebuild<A: Arithmetic<F>>(
        &mut self,
        a: &A,
        elapsed_ms: F,
        window_s: F,
    ) -> (ended: bool)
        ensures
            !ended ==> final(self).heatmap_rebuild_count == one_more(
                old(self).heatmap_rebuild_count,
            ),
            forall|m: Model<F>| #[trigger]
                arith::describes(m, *a) ==> ended == !m.less(window_s, m.ratio(1, 1))
                    && *final(self) == rolled(
                    m,
                    with_rebuild(m, *old(self), elapsed_ms),
                    window_s,
                ),
    {
        self.heatmap_rebuild_count = self.heatmap_rebuild_count.saturating_add(1);
        self.heatmap_rebuild_total_ms = arith::plus(a, self.heatmap_rebuild_total_ms, elapsed_ms);
        self.heatmap_rebuild_max_ms = arith::greater(a, self.heatmap_rebuild_max_ms, elapsed_ms);
        self.heatmap_rebuild_last_ms = elapsed_ms;
        proof {
            assert forall|m: Model<F>| #[trigger] arith::describes(m, *a) implies *self
                == with_rebuild(m, *old(self), elapsed_ms) by {}
        }
        self.roll_window_if_ready(a, window_s)
    }

    /// The figures of the last full window.
    pub fn snapshot(&self) -> (figures: PerfWindowSnapshot<F>)
        ensures
            figures == self.snapshot,
    {
        self.snapshot
    }
}

// ---------------------------------------------------------------------------
// Laws
// ---------------------------------------------------------------------------

/// The counts after frames that took so long each, and rebuilds that did.
pub open spec fn counted<F>(
    m: Model<F>,
    frames: Seq<F>,
    rebuilds: Seq<F>,
) -> PerfStats<F>
    decreases frames.len() + rebuilds.len(),
{
    if frames.len() > 0 {
        with_frame(m, counted(m, frames.drop_last(), rebuilds), frames.last())
    } else if rebuilds.len() > 0 {
        with_rebuild(m, counted(m, frames, rebuilds.drop_last()), rebuilds.last())
    } else {
        fresh(m)
    }
}

/// In exact arithmetic the figures of a window are those of its frames and
/// rebuilds: how many there were in a second, how long they took on average, and
/// that none took longer than the longest.
pub proof fn law_window_figures_are_averages<F>(
    m: Model<F>,
    v: spec_fn(F) -> real,
    frames: Seq<F>,
    rebuilds: Seq<F>,
    window_s: F,
)
    requires
        arith::is_exact(m, v),
        v(window_s) >= 1real,
        frames.len() < u32::MAX,
        rebuilds.len() < u32::MAX,
    ensures
        ({
            let shown = rolled(m, counted(m, frames, rebuilds), window_s).snapshot;
            &&& v(shown.fps) * v(window_s) == frames.len() as real
            &&& v(shown.heatmap_rebuilds_per_sec) * v(window_s) == rebuilds.len() as real
            &&& frames.len() > 0 ==> v(shown.frame_avg_ms) * (frames.len() as real)
                == arith::total(arith::values(v, frames))
            &&& rebuilds.len() > 0 ==> v(shown.heatmap_rebuild_avg_ms) * (rebuilds.len() as real)
                == arith::total(arith::values(v, rebuilds))
            &&& forall|i: int|
                0 <= i < frames.len() ==> v(#[trigger] frames[i]) <= v(shown.frame_max_ms)
            &&& forall|i: int|
                0 <= i < rebuilds.len() ==> v(#[trigger] rebuilds[i]) <= v(
                    shown.heatmap_rebuild_max_ms,
                )
            &&& v(shown.frame_max_ms) == 0real || exists|i: int|
                0 <= i < frames.len() && v(#[trigger] frames[i]) == v(shown.frame_max_ms)
            &&& rebuilds.len() > 0 ==> v(shown.heatmap_rebuild_last_ms) == v(rebuilds.last())
        }),
{
    arith::lemma_whole_number(m, v, 1);
    arith::lemma_whole_number(m, v, 0);
    lemma_counted(m, v, frames, rebuilds);
    let s = counted(m, frames, rebuilds);
    let w = v(window_s);
    arith::lemma_quotient(frames.len() as real, w);
    arith::lemma_quotient(rebuilds.len() as real, w);
    if frames.len() > 0 {
        arith::lemma_quotient(v(s.frame_total_ms), frames.len() as real);
    }
    if rebuilds.len() > 0 {
        arith::lemma_quotient(v(s.heatmap_rebuild_total_ms), rebuilds.len() as real);
    }
}

proof fn lemma_counted<F>(
    m: Model<F>,
    v: spec_fn(F) -> real,
    frames: Seq<F>,
    rebuilds: Seq<F>,
)
    requires
        arith::is_exact(m, v),
        frames.len() < u32::MAX,
        rebuilds.len() < u32::MAX,
    ensures
        ({
            let s = counted(m, frames, rebuilds);
            &&& s.frame_count == frames.len()
            &&& s.heatmap_rebuild_count == rebuilds.len()
            &&& v(s.frame_total_ms) == arith::total(arith::values(v, frames))
            &&& v(s.heatmap_rebuild_total_ms) == arith::total(arith::values(v, rebuilds))
            &&& forall|i: int|
                0 <= i < frames.len() ==> v(#[trigger] frames[i]) <= v(s.frame_max_ms)
            &&& forall|i: int|
                0 <= i < rebuilds.len() ==> v(#[trigger] rebuilds[i]) <= v(
                    s.heatmap_rebuild_max_ms,
                )
            &&& v(s.frame_max_ms) == 0real || exists|i: int|
                0 <= i < frames.len() && v(#[trigger] frames[i]) == v(s.frame_max_ms)
            &&& rebuilds.len() > 0 ==> s.heatmap_rebuild_last_ms == rebuilds.last()
        }),
    decreases frames.len() + rebuilds.len(),
{
    arith::lemma_whole_number(m, v, 0);
    let s = counted(m, frames, rebuilds);
    if frames.len() > 0 {
        let front = frames.drop_last();
        lemma_counted(m, v, front, rebuilds);
        let before = counted(m, front, rebuilds);
        assert(arith::values(v, frames).drop_last() =~= arith::values(v, front));
        let n = frames.len() - 1;
        assert(frames[n] == frames.last());
        assert forall|i: int| 0 <= i < frames.len() implies v(#[trigger] frames[i]) <= v(
            s.frame_max_ms,
        ) by {
            if i < n {
                assert(front[i] == frames[i]);
            }
        }
        if v(before.frame_max_ms) >= v(frames.last()) && v(before.frame_max_ms) != 0real {
            let i = choose|i: int|
                0 <= i < front.len() && v(#[trigger] front[i]) == v(before.frame_max_ms);
            assert(frames[i] == front[i]);
        }
    } else if rebuilds.len() > 0 {
        let front = rebuilds.drop_last();
        lemma_counted(m, v, frames, front);
        assert(arith::values(v, rebuilds).drop_last() =~= arith::values(v, front));
        assert forall|i: int| 0 <= i < rebuilds.len() implies v(#[trigger] rebuilds[i]) <= v(
            s.heatmap_rebuild_max_ms,
        ) by {
            if i < rebuilds.len() - 1 {
                assert(front[i] == rebuilds[i]);
            }
        }
    }
}

} // verus!
