//! Depth over time: the columns of the heatmap and the time that each stands
//! for.

use vstd::prelude::*;

verus! {

/// The order book at one time: bids first, then asks, each a price and a
/// quantity.
#[derive(Debug)]
pub struct DepthSlice<F> {
    pub timestamp_ms: u64,
    pub levels: Vec<(F, F)>,
    pub bids_len: usize,
}

/// The times of the slices.
pub open spec fn times<F>(slices: Seq<DepthSlice<F>>) -> Seq<u64> {
    Seq::new(slices.len(), |i: int| slices[i].timestamp_ms)
}

/// Whether the times never go back.
pub open spec fn is_ascending(list: Seq<u64>) -> bool {
    forall|i: int, j: int| 0 <= i <= j < list.len() ==> list[i] <= list[j]
}

/// How far two times are apart.
pub open spec fn apart(t: u64, u: u64) -> int {
    if t < u {
        u - t
    } else {
        t - u
    }
}

/// How far two times are apart.
fn distance(t: u64, u: u64) -> (d: u64)
    ensures
        d == apart(t, u),
{
    if t < u {
        u - t
    } else {
        t - u
    }
}

/// Whether none of the times is nearer to `target` than the one at `i`, and none
/// that is as near is earlier.
pub open spec fn is_nearest(list: Seq<u64>, target: u64, i: int) -> bool {
    &&& 0 <= i < list.len()
    &&& forall|j: int|
        0 <= j < list.len() ==> apart(list[i], target) < apart(#[trigger] list[j], target) || (
        apart(list[i], target) == apart(list[j], target) && list[i] <= list[j])
}

/// The index of the slice nearest to a time, the earlier one of two that are as
/// near; zero where there is none.
pub fn nearest_depth_slice_index_from_slices<F>(
    slices: &Vec<DepthSlice<F>>,
    target_ts_ms: u64,
) -> (nearest: usize)
    ensures
        slices.len() == 0 ==> nearest == 0,
        slices.len() > 0 ==> nearest < slices.len(),
        slices.len() > 0 && is_ascending(times(slices@)) ==> is_nearest(
            times(slices@),
            target_ts_ms,
            nearest as int,
        ),
{
    let ghost list = times(slices@);
    let mut low: usize = 0;
    let mut high: usize = slices.len();
    while low < high
        invariant
            low <= high <= slices.len(),
            list == times(slices@),
            is_ascending(list) ==> forall|j: int| 0 <= j < low ==> #[trigger] list[j] < target_ts_ms,
            is_ascending(list) ==> forall|j: int|
                high <= j < list.len() ==> #[trigger] list[j] >= target_ts_ms,
        decreases high - low,
    {
        let mid: usize = low + (high - low) / 2;
        let ghost here = list[mid as int];
        if slices[mid].timestamp_ms < target_ts_ms {
            low = mid + 1;
        } else {
            high = mid;
        }
    }
    if low == 0 {
        return 0;
    }
    let ghost left = list[low - 1];
    if low >= slices.len() {
        return slices.len() - 1;
    }
    let ghost right = list[low as int];
    let before: u64 = distance(slices[low - 1].timestamp_ms, target_ts_ms);
    let after: u64 = distance(slices[low].timestamp_ms, target_ts_ms);
    if before <= after {
        low - 1
    } else {
        low
    }
}

/// The first and the last time, if there is a slice.
pub fn time_range<F>(slices: &Vec<DepthSlice<F>>) -> (range: Option<(u64, u64)>)
    ensures
        range == if slices.len() == 0 {
            None
        } else {
            Some((times(slices@)[0], times(slices@).last()))
        },
{
    if slices.len() == 0 {
        None
    } else {
        Some((slices[0].timestamp_ms, slices[slices.len() - 1].timestamp_ms))
    }
}

// ---------------------------------------------------------------------------
// Columns
// ---------------------------------------------------------------------------

/// The place to which a cursor goes on for a time: forward as long as the next
/// slice is not farther off.
pub open spec fn advanced(list: Seq<u64>, cursor: int, t: u64) -> int
    decreases list.len() - cursor,
{
    if 0 <= cursor && cursor + 1 < list.len() && apart(list[cursor + 1], t) <= apart(
        list[cursor],
        t,
    ) {
        advanced(list, cursor + 1, t)
    } else {
        cursor
    }
}

/// The places of a cursor that goes through the times of the columns.
pub open spec fn column_slices(list: Seq<u64>, columns: Seq<u64>) -> Seq<int>
    decreases columns.len(),
{
    if columns.len() == 0 {
        Seq::empty()
    } else {
        let front = column_slices(list, columns.drop_last());
        let from = if front.len() == 0 {
            0
        } else {
            front.last()
        };
        front.push(advanced(list, from, columns.last()))
    }
}

/// The places of a list of indices.
pub open spec fn as_places(map: Seq<usize>) -> Seq<int> {
    Seq::new(map.len(), |i: int| map[i] as int)
}

/// The slice for each column, given the times of the columns.
pub fn slice_columns<F>(slices: &Vec<DepthSlice<F>>, columns: &Vec<u64>) -> (map: Vec<usize>)
    ensures
        as_places(map@) == column_slices(times(slices@), columns@),
        map.len() == columns.len(),
        forall|x: int| 0 <= x < map.len() && slices.len() > 0 ==> #[trigger] map@[x] < slices.len(),
{
    let ghost list = times(slices@);
    let mut map: Vec<usize> = Vec::new();
    let mut cursor: usize = 0;
    let mut x: usize = 0;
    proof {
        assert(as_places(map@) =~= column_slices(list, columns@.take(0)));
    }
    while x < columns.len()
        invariant
            x <= columns.len(),
            map.len() == x,
            list == times(slices@),
            as_places(map@) == column_slices(list, columns@.take(x as int)),
            cursor as int == if x == 0 {
                0
            } else {
                as_places(map@).last()
            },
            slices.len() > 0 ==> cursor < slices.len(),
            slices.len() == 0 ==> cursor == 0,
            forall|k: int| 0 <= k < x && slices.len() > 0 ==> #[trigger] map@[k] < slices.len(),
        decreases columns.len() - x,
    {
        let t: u64 = columns[x];
        let ghost from = cursor as int;
        while cursor + 1 < slices.len() && distance(slices[cursor + 1].timestamp_ms, t) <= distance(
            slices[cursor].timestamp_ms,
            t,
        )
            invariant
                list == times(slices@),
                slices.len() > 0 ==> cursor < slices.len(),
                slices.len() == 0 ==> cursor == 0,
                advanced(list, from, t) == advanced(list, cursor as int, t),
            decreases slices.len() - cursor,
        {
            cursor += 1;
        }
        let ghost before = as_places(map@);
        map.push(cursor);
        proof {
            assert(columns@.take(x as int + 1).drop_last() =~= columns@.take(x as int));
            assert(as_places(map@) =~= before.push(cursor as int));
        }
        x += 1;
    }
    proof {
        assert(columns@.take(columns@.len() as int) =~= columns@);
    }
    map
}

// ---------------------------------------------------------------------------
// Laws
// ---------------------------------------------------------------------------

/// Whether none of the times is nearer to `t` than the one at `i`.
pub open spec fn is_near(list: Seq<u64>, t: u64, i: int) -> bool {
    0 <= i < list.len() && forall|j: int|
        0 <= j < list.len() ==> apart(list[i], t) <= apart(#[trigger] list[j], t)
}

proof fn lemma_advanced(list: Seq<u64>, cursor: int, t: u64)
    requires
        is_ascending(list),
        0 <= cursor < list.len(),
        forall|j: int|
            0 <= j < cursor ==> apart(list[cursor], t) <= apart(#[trigger] list[j], t),
    ensures
        is_near(list, t, advanced(list, cursor, t)),
        cursor <= advanced(list, cursor, t) < list.len(),
    decreases list.len() - cursor,
{
    if cursor + 1 < list.len() && apart(list[cursor + 1], t) <= apart(list[cursor], t) {
        lemma_advanced(list, cursor + 1, t);
    } else {
        assert forall|j: int| 0 <= j < list.len() implies apart(list[cursor], t) <= apart(
            #[trigger] list[j],
            t,
        ) by {
            if j > cursor {
                assert(list[cursor + 1] <= list[j]);
                assert(list[cursor] <= list[cursor + 1]);
            }
        }
    }
}

/// Of slices and columns whose times never go back, each column gets a slice
/// than which none is nearer to it, and the slices never go back.
pub proof fn law_columns_get_their_nearest_slice(list: Seq<u64>, columns: Seq<u64>)
    requires
        list.len() > 0,
        is_ascending(list),
        is_ascending(columns),
    ensures
        column_slices(list, columns).len() == columns.len(),
        forall|x: int|
            0 <= x < columns.len() ==> is_near(
                list,
                columns[x],
                #[trigger] column_slices(list, columns)[x],
            ),
        forall|x: int, y: int|
            0 <= x <= y < columns.len() ==> #[trigger] column_slices(list, columns)[x]
                <= #[trigger] column_slices(list, columns)[y],
    decreases columns.len(),
{
    if columns.len() > 0 {
        let front = columns.drop_last();
        assert(is_ascending(front));
        law_columns_get_their_nearest_slice(list, front);
        let places = column_slices(list, front);
        let t = columns.last();
        let from = if places.len() == 0 {
            0
        } else {
            places.last()
        };
        if places.len() > 0 {
            let n = places.len() - 1;
            assert(is_near(list, front[n], places[n]));
            assert(front[n] == columns[n]);
            assert(columns[n] <= columns[columns.len() - 1]);
            assert forall|j: int| 0 <= j < from implies apart(list[from], t) <= apart(
                #[trigger] list[j],
                t,
            ) by {
                assert(apart(list[from], front[n]) <= apart(list[j], front[n]));
                assert(list[j] <= list[from]);
            }
        }
        lemma_advanced(list, from, t);
        let all = column_slices(list, columns);
        assert forall|x: int| 0 <= x < columns.len() implies is_near(
            list,
            columns[x],
            #[trigger] all[x],
        ) by {
            if x < places.len() {
                assert(all[x] == places[x]);
                assert(front[x] == columns[x]);
            }
        }
        assert forall|x: int, y: int| 0 <= x <= y < columns.len() implies #[trigger] all[x]
            <= #[trigger] all[y] by {
            if y < places.len() {
                assert(all[x] == places[x] && all[y] == places[y]);
            } else if x < places.len() {
                assert(all[x] == places[x]);
                assert(places[x] <= places[places.len() - 1]);
            }
        }
    }
}

} // verus!
