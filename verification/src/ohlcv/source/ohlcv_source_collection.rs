use vstd::prelude::*;
use vstd::multiset::Multiset;
use crate::ohlcv::source::{candle_views, OhlcvSource, OhlcvSourceError};
use crate::ohlcv::{Ohlcv, OhlcvView};
use crate::order::{
    id_before, id_is_before, lemma_id_before_irreflexive, lemma_id_before_total,
    lemma_id_before_transitive,
};
use crate::timestamp::Timestamp;

verus! {

/// The candle `a` comes before `b` in a stream of candles: it is earlier,
/// or of the same time and of an instrument whose identifier comes first.
pub open spec fn candle_before(a: OhlcvView, b: OhlcvView) -> bool {
    a.datetime.before(b.datetime) || (a.datetime == b.datetime && id_before(
        a.symbol_id,
        b.symbol_id,
    ))
}

/// The candles stand in ascending order of time and, within one time, of
/// instrument.
pub open spec fn in_stream_order(candles: Seq<OhlcvView>) -> bool {
    forall|i: int, j: int|
        0 <= i < j < candles.len() ==> !candle_before(#[trigger] candles[j], #[trigger] candles[i])
}

/// No source among the first `n` fails for the span.
pub open spec fn all_give(
    sources: Seq<Box<dyn OhlcvSource>>,
    start_date: Timestamp,
    end_date: Timestamp,
    n: int,
) -> bool {
    forall|i: int| 0 <= i < n ==> (#[trigger] sources[i]).candles(start_date, end_date) is Ok
}

/// The candles that the first `n` sources give for the span, as a bag.
pub open spec fn gathered(
    sources: Seq<Box<dyn OhlcvSource>>,
    start_date: Timestamp,
    end_date: Timestamp,
    n: int,
) -> Multiset<OhlcvView>
    decreases n,
{
    if n <= 0 {
        Multiset::empty()
    } else {
        gathered(sources, start_date, end_date, n - 1).add(
            match sources[n - 1].candles(start_date, end_date) {
                Ok(candles) => candles.to_multiset(),
                Err(_) => Multiset::empty(),
            },
        )
    }
}

/// The sources of several instruments, taken as one source.
pub struct OhlcvSourceCollection {
    symbol_sources: Vec<Box<dyn OhlcvSource>>,
}

impl OhlcvSourceCollection {
    /// The sources.
    pub closed spec fn sources(&self) -> Seq<Box<dyn OhlcvSource>> {
        self.symbol_sources@
    }

    pub fn new(symbol_sources: Vec<Box<dyn OhlcvSource>>) -> (r: OhlcvSourceCollection)
        ensures
            r.sources() == symbol_sources@,
    {
        OhlcvSourceCollection { symbol_sources }
    }

    pub fn symbol_sources(&self) -> (r: &Vec<Box<dyn OhlcvSource>>)
        ensures
            r@ == self.sources(),
    {
        &self.symbol_sources
    }

    /// The candles of all sources for the span, as one stream: in ascending
    /// order of time and, within one time, of instrument. Where a source
    /// fails, the first failure is returned.
    pub fn ohlcv(&self, start_date: &Timestamp, end_date: &Timestamp) -> (r: Result<
        Vec<Ohlcv>,
        OhlcvSourceError,
    >)
        ensures
            match r {
                Ok(candles) => {
                    &&& all_give(
                        self.sources(),
                        *start_date,
                        *end_date,
                        self.sources().len() as int,
                    )
                    &&& in_stream_order(candle_views(candles@))
                    &&& candle_views(candles@).to_multiset() == gathered(
                        self.sources(),
                        *start_date,
                        *end_date,
                        self.sources().len() as int,
                    )
                },
                Err(e) => exists|f: int|
                    0 <= f < self.sources().len() && all_give(
                        self.sources(),
                        *start_date,
                        *end_date,
                        f,
                    ) && (#[trigger] self.sources()[f]).candles(*start_date, *end_date) == Err::<
                        Seq<OhlcvView>,
                        OhlcvSourceError,
                    >(e),
            },
    {
        let mut all_ohlcv: Vec<Ohlcv> = Vec::new();
        let mut n: usize = 0;
        assert(candle_views(all_ohlcv@).to_multiset() =~= Multiset::empty()) by {
            assert(candle_views(all_ohlcv@) =~= Seq::empty());
            broadcast use vstd::seq_lib::group_to_multiset_ensures;
        }
        while n < self.symbol_sources.len()
            invariant
                n <= self.symbol_sources.len(),
                all_give(self.sources(), *start_date, *end_date, n as int),
                in_stream_order(candle_views(all_ohlcv@)),
                candle_views(all_ohlcv@).to_multiset() == gathered(
                    self.sources(),
                    *start_date,
                    *end_date,
                    n as int,
                ),
            decreases self.symbol_sources.len() - n,
        {
            let given = match self.symbol_sources[n].ohlcv(start_date, end_date) {
                Ok(given) => given,
                Err(e) => {
                    assert(self.sources()[n as int].candles(*start_date, *end_date) == Err::<
                        Seq<OhlcvView>,
                        OhlcvSourceError,
                    >(e));
                    return Err(e);
                },
            };
            let ghost before = gathered(self.sources(), *start_date, *end_date, n as int);
            let ghost shown = candle_views(given@);
            assert(self.sources()[n as int].candles(*start_date, *end_date) == Ok::<
                Seq<OhlcvView>,
                OhlcvSourceError,
            >(shown));
            let mut k: usize = 0;
            assert(shown.take(0).to_multiset() =~= Multiset::empty()) by {
                assert(shown.take(0) =~= Seq::empty());
                broadcast use vstd::seq_lib::group_to_multiset_ensures;
            }
            assert(before.add(Multiset::empty()) =~= before);
            while k < given.len()
                invariant
                    k <= given.len(),
                    shown == candle_views(given@),
                    in_stream_order(candle_views(all_ohlcv@)),
                    candle_views(all_ohlcv@).to_multiset() == before.add(
                        shown.take(k as int).to_multiset(),
                    ),
                decreases given.len() - k,
            {
                let ghost sorted = candle_views(all_ohlcv@);
                let ghost candle = given[k as int]@;
                let at = insert_candle(&mut all_ohlcv, given[k].clone());
                proof {
                    broadcast use vstd::seq_lib::group_to_multiset_ensures;

                    assert(shown.take(k as int + 1) =~= shown.take(k as int).push(candle));
                    assert(sorted.insert(at as int, candle).to_multiset() =~= sorted.to_multiset().insert(
                        candle,
                    ));
                    assert(shown.take(k as int).push(candle).to_multiset() =~= shown.take(
                        k as int,
                    ).to_multiset().insert(candle));
                    assert(before.add(shown.take(k as int).to_multiset()).insert(candle)
                        =~= before.add(shown.take(k as int).to_multiset().insert(candle)));
                }
                k = k + 1;
            }
            assert(shown.take(given.len() as int) =~= shown);
            n = n + 1;
        }
        Ok(all_ohlcv)
    }
}

/// Whether the candle `a` comes before `b` in a stream of candles.
fn is_candle_before(a: &Ohlcv, b: &Ohlcv) -> (r: bool)
    ensures
        r == candle_before(a@, b@),
{
    if a.datetime().is_before(b.datetime()) {
        true
    } else if b.datetime().is_before(a.datetime()) {
        false
    } else {
        id_is_before(a.symbol_id().as_str(), b.symbol_id().as_str())
    }
}

/// Of three candles, the third does not come before the first where it does
/// not come before the second, nor the second before the first.
proof fn lemma_stream_order_transitive(a: OhlcvView, b: OhlcvView, c: OhlcvView)
    requires
        !candle_before(b, a),
        !candle_before(c, b),
    ensures
        !candle_before(c, a),
{
    if candle_before(c, a) && c.datetime == a.datetime {
        lemma_id_before_total(a.symbol_id, b.symbol_id);
        if id_before(a.symbol_id, b.symbol_id) {
            lemma_id_before_transitive(c.symbol_id, a.symbol_id, b.symbol_id);
        }
    }
}

/// Puts a candle into a stream of candles: behind the last candle that it
/// does not come before.
fn insert_candle(candles: &mut Vec<Ohlcv>, candle: Ohlcv) -> (at: usize)
    requires
        in_stream_order(candle_views(old(candles)@)),
    ensures
        at <= old(candles).len(),
        candle_views(final(candles)@) == candle_views(old(candles)@).insert(at as int, candle@),
        in_stream_order(candle_views(final(candles)@)),
{
    let ghost before = candle_views(candles@);
    let mut at: usize = candles.len();
    while at > 0 && is_candle_before(&candle, &candles[at - 1])
        invariant
            at <= candles.len(),
            before == candle_views(candles@),
            forall|j: int| at <= j < before.len() ==> candle_before(candle@, #[trigger] before[j]),
        decreases at,
    {
        assert(before[at as int - 1] == candles[at as int - 1]@);
        at = at - 1;
    }
    proof {
        if at > 0 {
            assert(before[at as int - 1] == candles[at as int - 1]@);
            assert forall|j: int| 0 <= j < at implies !candle_before(candle@, #[trigger] before[j]) by {
                if j < at - 1 {
                    lemma_stream_order_transitive(before[j], before[at as int - 1], candle@);
                }
            }
        }
    }
    candles.insert(at, candle);
    let ghost after = candle_views(candles@);
    assert(after =~= before.insert(at as int, candle@));
    assert forall|i: int, j: int| 0 <= i < j < after.len() implies !candle_before(
        #[trigger] after[j],
        #[trigger] after[i],
    ) by {
        if j < at {
            assert(after[i] == before[i] && after[j] == before[j]);
        } else if j == at {
            assert(after[i] == before[i]);
        } else if i < at {
            assert(after[i] == before[i] && after[j] == before[j - 1]);
        } else if i == at {
            assert(after[j] == before[j - 1]);
            lemma_before_is_one_way(candle@, before[j - 1]);
        } else {
            assert(after[i] == before[i - 1] && after[j] == before[j - 1]);
        }
    }
    at
}

/// A candle that comes before another does not come behind it.
proof fn lemma_before_is_one_way(a: OhlcvView, b: OhlcvView)
    requires
        candle_before(a, b),
    ensures
        !candle_before(b, a),
{
    if a.datetime == b.datetime && id_before(b.symbol_id, a.symbol_id) {
        lemma_id_before_transitive(a.symbol_id, b.symbol_id, a.symbol_id);
        lemma_id_before_irreflexive(a.symbol_id);
    }
}

} // verus!
