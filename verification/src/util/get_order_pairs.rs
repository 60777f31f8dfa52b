use vstd::prelude::*;
use crate::backtester::{all_bound, exits_paired, filled_among};
use crate::model::Model;
use crate::order::{order_views, Order, OrderStatus, OrderStatusView, OrderView};
use crate::portfolio::{has_id, lemma_sorted_is_distinct, order_with_id, Portfolio};
use crate::strategy::{entry_of, StrategyCollection, StrategyType, StrategyTypeView};
use crate::timestamp::Timestamp;

verus! {

/// A filled entry order and a filled order that closed its position.
#[derive(Debug, PartialEq)]
pub struct OrderPair<'a> {
    pub entry_order: &'a Order,
    pub exit_order: &'a Order,
}

/// The mathematical value of an [`OrderPair`].
pub struct OrderPairView {
    pub entry_order: OrderView,
    pub exit_order: OrderView,
}

impl<'a> View for OrderPair<'a> {
    type V = OrderPairView;

    open spec fn view(&self) -> OrderPairView {
        OrderPairView { entry_order: self.entry_order@, exit_order: self.exit_order@ }
    }
}

/// The mathematical values of a sequence of order pairs.
pub open spec fn pair_views(pairs: Seq<OrderPair>) -> Seq<OrderPairView> {
    Seq::new(pairs.len(), |i: int| pairs[i]@)
}

/// The time at which a filled order was filled.
pub open spec fn fill_time(order: OrderView) -> Timestamp {
    match order.status {
        OrderStatusView::Filled(execution) => execution.datetime,
        _ => Timestamp { seconds: 0, nanoseconds: 0 },
    }
}

/// The pair that the closed order at position `i` makes with its entry
/// order: there is one where the order is filled and was made by an exit
/// strategy.
pub open spec fn exit_pair_at<'model, M: Model>(
    closed: Seq<OrderView>,
    bindings: Map<Seq<char>, Seq<char>>,
    types: Map<Seq<char>, StrategyTypeView<'model, M>>,
    i: int,
) -> Option<OrderPairView> {
    match types[bindings[closed[i].id]] {
        StrategyTypeView::ExitStrategy(_, _, entry_order_id) => if closed[i].status is Filled {
            Some(
                OrderPairView {
                    entry_order: order_with_id(closed, entry_order_id),
                    exit_order: closed[i],
                },
            )
        } else {
            None
        },
        StrategyTypeView::EntryStrategy(_, _) => None,
    }
}

/// Where a pair whose entry order was filled at `time` goes among pairs in
/// ascending order of that time: behind the last pair that is no later.
pub open spec fn place_of(pairs: Seq<OrderPairView>, time: Timestamp) -> int
    decreases pairs.len(),
{
    if pairs.len() == 0 {
        0
    } else if fill_time(pairs.last().entry_order).not_after(time) {
        pairs.len() as int
    } else {
        place_of(pairs.drop_last(), time)
    }
}

/// The pairs of the first `n` closed orders, in ascending order of the time
/// at which the entry order was filled; pairs of one time stand in the order
/// of the exit orders.
pub open spec fn order_pairs_among<'model, M: Model>(
    closed: Seq<OrderView>,
    bindings: Map<Seq<char>, Seq<char>>,
    types: Map<Seq<char>, StrategyTypeView<'model, M>>,
    n: int,
) -> Seq<OrderPairView>
    decreases n,
{
    if n <= 0 {
        Seq::empty()
    } else {
        let before = order_pairs_among(closed, bindings, types, n - 1);
        match exit_pair_at(closed, bindings, types, n - 1) {
            Some(pair) => before.insert(place_of(before, fill_time(pair.entry_order)), pair),
            None => before,
        }
    }
}

/// The pairs stand in ascending order of the time at which the entry order
/// was filled.
pub open spec fn sorted_by_entry(pairs: Seq<OrderPairView>) -> bool {
    forall|i: int, j: int|
        0 <= i < j < pairs.len() ==> fill_time((#[trigger] pairs[i]).entry_order).not_after(
            fill_time((#[trigger] pairs[j]).entry_order),
        )
}

/// The place of a pair among sorted pairs keeps them sorted.
pub proof fn lemma_place_of(pairs: Seq<OrderPairView>, time: Timestamp)
    requires
        sorted_by_entry(pairs),
    ensures
        0 <= place_of(pairs, time) <= pairs.len(),
        forall|i: int|
            0 <= i < place_of(pairs, time) ==> fill_time((#[trigger] pairs[i]).entry_order).not_after(
                time,
            ),
        forall|i: int|
            place_of(pairs, time) <= i < pairs.len() ==> time.before(
                fill_time((#[trigger] pairs[i]).entry_order),
            ),
    decreases pairs.len(),
{
    if pairs.len() > 0 {
        let last = fill_time(pairs.last().entry_order);
        if last.not_after(time) {
            assert forall|i: int| 0 <= i < pairs.len() implies fill_time(
                (#[trigger] pairs[i]).entry_order,
            ).not_after(time) by {
                if i < pairs.len() - 1 {
                    assert(fill_time(pairs[i].entry_order).not_after(
                        fill_time(pairs[pairs.len() - 1].entry_order),
                    ));
                }
            }
        } else {
            let rest = pairs.drop_last();
            assert forall|i: int, j: int| 0 <= i < j < rest.len() implies fill_time(
                (#[trigger] rest[i]).entry_order,
            ).not_after(fill_time((#[trigger] rest[j]).entry_order)) by {
                assert(rest[i] == pairs[i] && rest[j] == pairs[j]);
            }
            lemma_place_of(rest, time);
            assert forall|i: int| place_of(pairs, time) <= i < pairs.len() implies time.before(
                fill_time((#[trigger] pairs[i]).entry_order),
            ) by {
                if i < pairs.len() - 1 {
                    assert(rest[i] == pairs[i]);
                }
            }
            assert forall|i: int| 0 <= i < place_of(pairs, time) implies fill_time(
                (#[trigger] pairs[i]).entry_order,
            ).not_after(time) by {
                assert(rest[i] == pairs[i]);
            }
        }
    }
}

/// The pairs come out in ascending order of the time at which the entry
/// order was filled, and each of them is the pair of one closed order.
pub proof fn law_order_pairs_are_sorted<'model, M: Model>(
    closed: Seq<OrderView>,
    bindings: Map<Seq<char>, Seq<char>>,
    types: Map<Seq<char>, StrategyTypeView<'model, M>>,
    n: int,
)
    requires
        0 <= n <= closed.len(),
    ensures
        sorted_by_entry(order_pairs_among(closed, bindings, types, n)),
        order_pairs_among(closed, bindings, types, n).len() <= n,
        forall|k: int|
            0 <= k < order_pairs_among(closed, bindings, types, n).len() ==> exists|i: int|
                0 <= i < n && #[trigger] exit_pair_at(closed, bindings, types, i) == Some(
                    #[trigger] order_pairs_among(closed, bindings, types, n)[k],
                ),
        forall|i: int|
            0 <= i < n && (#[trigger] exit_pair_at(closed, bindings, types, i)) is Some
                ==> order_pairs_among(closed, bindings, types, n).contains(
                exit_pair_at(closed, bindings, types, i)->0,
            ),
    decreases n,
{
    if n > 0 {
        law_order_pairs_are_sorted(closed, bindings, types, n - 1);
        let before = order_pairs_among(closed, bindings, types, n - 1);
        let now = order_pairs_among(closed, bindings, types, n);
        match exit_pair_at(closed, bindings, types, n - 1) {
            Some(pair) => {
                let at = place_of(before, fill_time(pair.entry_order));
                lemma_place_of(before, fill_time(pair.entry_order));
                assert forall|i: int, j: int| 0 <= i < j < now.len() implies fill_time(
                    (#[trigger] now[i]).entry_order,
                ).not_after(fill_time((#[trigger] now[j]).entry_order)) by {
                    let a = if i < at { i } else { i - 1 };
                    let b = if j < at { j } else { j - 1 };
                    if i != at {
                        assert(now[i] == before[a]);
                    }
                    if j != at {
                        assert(now[j] == before[b]);
                    }
                }
                assert forall|k: int| 0 <= k < now.len() implies exists|i: int|
                    0 <= i < n && #[trigger] exit_pair_at(closed, bindings, types, i) == Some(
                        #[trigger] now[k],
                    ) by {
                    if k == at {
                        assert(exit_pair_at(closed, bindings, types, n - 1) == Some(now[k]));
                    } else {
                        let a = if k < at { k } else { k - 1 };
                        assert(now[k] == before[a]);
                        let i = choose|i: int|
                            0 <= i < n - 1 && #[trigger] exit_pair_at(closed, bindings, types, i)
                                == Some(before[a]);
                        assert(exit_pair_at(closed, bindings, types, i) == Some(now[k]));
                    }
                }
                assert forall|i: int|
                    0 <= i < n && (#[trigger] exit_pair_at(closed, bindings, types, i))
                        is Some implies now.contains(
                    exit_pair_at(closed, bindings, types, i)->0,
                ) by {
                    if i == n - 1 {
                        assert(now[at] == pair);
                    } else {
                        let found = exit_pair_at(closed, bindings, types, i)->0;
                        let k = choose|k: int| 0 <= k < before.len() && before[k] == found;
                        if k < at {
                            assert(now[k] == found);
                        } else {
                            assert(now[k + 1] == found);
                        }
                    }
                }
            },
            None => {},
        }
    }
}

/// The pairs of entry and exit orders among the closed orders: one for each
/// filled order that an exit strategy made, with the entry order for which
/// the strategy exits. They come in ascending order of the time at which the
/// entry order was filled; pairs of one time stand in the order of the exit
/// orders' identifiers. Every closed order has to be bound to a strategy,
/// and every exit strategy to a closed and filled entry order.
pub fn get_order_pairs<'a, 'model, M: Model>(
    portfolio: &'a Portfolio,
    strategy_collection: &StrategyCollection<'model, M>,
) -> (r: Vec<OrderPair<'a>>)
    requires
        portfolio.well_formed(),
        strategy_collection.well_formed(),
        all_bound(*portfolio, *strategy_collection),
        exits_paired(*portfolio, *strategy_collection),
    ensures
        pair_views(r@) == order_pairs_among(
            portfolio.closed_view(),
            strategy_collection.bindings(),
            strategy_collection.types(),
            portfolio.closed_view().len() as int,
        ),
{
    let ghost closed = portfolio.closed_view();
    let ghost bindings = strategy_collection.bindings();
    let ghost types = strategy_collection.types();
    let orders = portfolio.closed_orders();
    let mut result: Vec<OrderPair<'a>> = Vec::new();
    let mut n: usize = 0;
    assert(pair_views(result@) =~= order_pairs_among(closed, bindings, types, 0));
    while n < orders.len()
        invariant
            n <= orders.len(),
            portfolio.well_formed(),
            strategy_collection.well_formed(),
            all_bound(*portfolio, *strategy_collection),
            exits_paired(*portfolio, *strategy_collection),
            closed == portfolio.closed_view(),
            bindings == strategy_collection.bindings(),
            types == strategy_collection.types(),
            order_views(orders@) == closed,
            pair_views(result@) == order_pairs_among(closed, bindings, types, n as int),
            forall|k: int| 0 <= k < result.len() ==> (#[trigger] result[k]).entry_order@.status is Filled,
        decreases orders.len() - n,
    {
        let order = &orders[n];
        assert(closed[n as int] == order@);
        assert(portfolio.holds(order@.id));
        let strategy_id = strategy_collection.order_strategy.get(order.id().as_str()).unwrap();
        assert(strategy_id@ == bindings[order@.id]);
        assert(types.contains_key(strategy_id@));
        let strategy_type = strategy_collection.strategy_types.get(strategy_id.as_str()).unwrap();
        assert(strategy_type@ == types[strategy_id@]);
        if let StrategyType::ExitStrategy(_, _, entry_order_id) = strategy_type {
            if let OrderStatus::Filled(_) = order.status() {
                proof {
                    assert(entry_of(types[strategy_id@]) == Some(entry_order_id@));
                    assert(filled_among(closed, entry_order_id@));
                    assert(has_id(closed, entry_order_id@));
                }
                let entry_order = portfolio.closed_order(entry_order_id).unwrap();
                proof {
                    lemma_sorted_is_distinct(closed);
                    let c = choose|i: int|
                        0 <= i < closed.len() && (#[trigger] closed[i]).id == entry_order_id@;
                    let f = choose|i: int|
                        0 <= i < closed.len() && (#[trigger] closed[i]).id == entry_order_id@
                            && closed[i].status is Filled;
                    let e = choose|i: int| 0 <= i < closed.len() && closed[i] == entry_order@;
                    if c != e {
                        if c < e {
                            assert(closed[c].id != closed[e].id);
                        } else {
                            assert(closed[e].id != closed[c].id);
                        }
                    }
                    if f != e {
                        if f < e {
                            assert(closed[f].id != closed[e].id);
                        } else {
                            assert(closed[e].id != closed[f].id);
                        }
                    }
                    assert(entry_order@ == order_with_id(closed, entry_order_id@));
                }
                let pair = OrderPair { entry_order: entry_order, exit_order: order };
                let ghost before = pair_views(result@);
                let at = place(&result, get_execution_datetime(entry_order));
                result.insert(at, pair);
                assert(pair_views(result@) =~= before.insert(at as int, pair@));
                assert forall|k: int| 0 <= k < result.len() implies (
                #[trigger] result[k]).entry_order@.status is Filled by {
                    if k < at {
                        assert(result[k]@ == before[k]);
                    } else if k > at {
                        assert(result[k]@ == before[k - 1]);
                    }
                }
            }
        }
        n = n + 1;
    }
    result
}

/// The time at which a filled order was filled.
fn get_execution_datetime(order: &Order) -> (r: Timestamp)
    requires
        order@.status is Filled,
    ensures
        r == fill_time(order@),
{
    *order.execution().unwrap().datetime()
}

/// Where a pair whose entry order was filled at `time` goes among the
/// pairs.
fn place(pairs: &Vec<OrderPair>, time: Timestamp) -> (r: usize)
    requires
        forall|k: int| 0 <= k < pairs.len() ==> (#[trigger] pairs[k]).entry_order@.status is Filled,
    ensures
        r == place_of(pair_views(pairs@), time),
        r <= pairs.len(),
{
    let ghost all = pair_views(pairs@);
    let mut k: usize = pairs.len();
    assert(all.take(k as int) =~= all);
    while k > 0
        invariant
            k <= pairs.len(),
            all == pair_views(pairs@),
            place_of(all, time) == place_of(all.take(k as int), time),
            forall|j: int|
                0 <= j < pairs.len() ==> (#[trigger] pairs[j]).entry_order@.status is Filled,
        decreases k,
    {
        let ghost shown = all.take(k as int);
        assert(shown.last() == pairs[k as int - 1]@);
        if get_execution_datetime(pairs[k - 1].entry_order).is_not_after(&time) {
            return k;
        }
        assert(shown.drop_last() =~= all.take(k as int - 1));
        k = k - 1;
    }
    0
}

} // verus!
