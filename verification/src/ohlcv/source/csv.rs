use vstd::prelude::*;
use crate::ohlcv::source::candle_views;
use crate::ohlcv::{Ohlcv, OhlcvView};
use crate::timestamp::Timestamp;

verus! {

/// The candles stand in ascending order of time.
pub open spec fn in_time_order(candles: Seq<OhlcvView>) -> bool {
    forall|i: int, j: int|
        0 <= i < j < candles.len() ==> !(#[trigger] candles[j]).datetime.before(
            (#[trigger] candles[i]).datetime,
        )
}

/// `at` is the place of the first candle that is not earlier than `date`:
/// the candles before it are earlier, those from it on are not.
pub open spec fn is_first_from(candles: Seq<OhlcvView>, date: Timestamp, at: int) -> bool {
    &&& 0 <= at <= candles.len()
    &&& forall|i: int| 0 <= i < at ==> (#[trigger] candles[i]).datetime.before(date)
    &&& forall|i: int| at <= i < candles.len() ==> !(#[trigger] candles[i]).datetime.before(date)
}

/// The place of the first candle that is not earlier than `date`.
pub open spec fn first_from(candles: Seq<OhlcvView>, date: Timestamp) -> int {
    choose|at: int| is_first_from(candles, date, at)
}

/// There is one such place only.
pub proof fn lemma_first_from_is_unique(
    candles: Seq<OhlcvView>,
    date: Timestamp,
    at: int,
    other: int,
)
    requires
        is_first_from(candles, date, at),
        is_first_from(candles, date, other),
    ensures
        at == other,
{
    if at < other {
        assert(candles[at].datetime.before(date));
    } else if other < at {
        assert(candles[other].datetime.before(date));
    }
}

/// The place of the first candle that is not earlier than `date`.
fn search(candles: &Vec<Ohlcv>, date: &Timestamp) -> (at: usize)
    requires
        in_time_order(candle_views(candles@)),
    ensures
        is_first_from(candle_views(candles@), *date, at as int),
        at == first_from(candle_views(candles@), *date),
{
    let ghost all = candle_views(candles@);
    let mut lo: usize = 0;
    let mut hi: usize = candles.len();
    while lo < hi
        invariant
            lo <= hi <= candles.len(),
            all == candle_views(candles@),
            in_time_order(all),
            forall|i: int| 0 <= i < lo ==> (#[trigger] all[i]).datetime.before(*date),
            forall|i: int| hi <= i < all.len() ==> !(#[trigger] all[i]).datetime.before(*date),
        decreases hi - lo,
    {
        let mid = lo + (hi - lo) / 2;
        assert(all[mid as int] == candles[mid as int]@);
        if candles[mid].datetime().is_before(date) {
            assert forall|i: int| 0 <= i < mid + 1 implies (#[trigger] all[i]).datetime.before(
                *date,
            ) by {
                if i < mid {
                    assert(!all[mid as int].datetime.before(all[i].datetime));
                }
            }
            lo = mid + 1;
        } else {
            assert forall|i: int| mid <= i < all.len() implies !(#[trigger] all[i]).datetime.before(
                *date,
            ) by {
                if i > mid {
                    assert(!all[i].datetime.before(all[mid as int].datetime));
                }
            }
            hi = mid;
        }
    }
    proof {
        assert(is_first_from(all, *date, lo as int));
        lemma_first_from_is_unique(all, *date, lo as int, first_from(all, *date));
    }
    lo
}

/// The candles of a span of time among candles in ascending order of time:
/// those from the first that is not earlier than `start_date` up to, not
/// including, the first that is not earlier than `end_date`. Where these
/// two are one candle, that candle is given. The first of the two must not
/// stand behind the second, and there must be a candle that is not earlier
/// than `start_date`.
pub fn candles_between(loaded: &Vec<Ohlcv>, start_date: &Timestamp, end_date: &Timestamp) -> (r:
    Vec<Ohlcv>)
    requires
        in_time_order(candle_views(loaded@)),
        first_from(candle_views(loaded@), *start_date) <= first_from(
            candle_views(loaded@),
            *end_date,
        ),
        first_from(candle_views(loaded@), *start_date) < loaded.len(),
    ensures
        ({
            let all = candle_views(loaded@);
            let start = first_from(all, *start_date);
            let end = first_from(all, *end_date);
            candle_views(r@) == all.subrange(
                start,
                if start == end {
                    end + 1
                } else {
                    end
                },
            )
        }),
{
    let ghost all = candle_views(loaded@);
    let start_idx = search(loaded, start_date);
    let mut end_idx = search(loaded, end_date);
    if start_idx == end_idx {
        end_idx += 1;
    }
    let mut selected: Vec<Ohlcv> = Vec::new();
    let mut i: usize = start_idx;
    while i < end_idx
        invariant
            start_idx <= i <= end_idx <= loaded.len(),
            all == candle_views(loaded@),
            candle_views(selected@) == all.subrange(start_idx as int, i as int),
        decreases end_idx - i,
    {
        let ghost before = candle_views(selected@);
        selected.push(loaded[i].clone());
        assert(candle_views(selected@) =~= before.push(all[i as int]));
        assert(all.subrange(start_idx as int, i as int + 1) =~= all.subrange(
            start_idx as int,
            i as int,
        ).push(all[i as int]));
        i = i + 1;
    }
    selected
}

} // verus!
