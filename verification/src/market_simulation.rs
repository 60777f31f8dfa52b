use vstd::prelude::*;
use crate::direction::Direction;
use crate::execution::{Execution, ExecutionView};
use crate::ohlcv::{Ohlcv, OhlcvView};
use crate::order::{
    distinct_ids, order_views, update_views, CancellationReason, OcaGroup, Order, OrderId, OrderKind,
    OrderStatus, OrderStatusView, OrderView,
};
use crate::symbol::Price;

verus! {

/// The order's active-until bound is reached at the candle.
pub open spec fn expired(order: OrderView, candle: OhlcvView) -> bool {
    order.active_until matches Some(until) && until.not_after(candle.datetime)
}

/// The order's active-after bound still lies ahead of the candle.
pub open spec fn not_yet_active(order: OrderView, candle: OhlcvView) -> bool {
    order.active_after matches Some(after) && candle.datetime.before(after)
}

/// The candle's prices trigger an order of this kind and direction.
pub open spec fn triggered(kind: OrderKind, direction: Direction, candle: OhlcvView) -> bool {
    match kind {
        OrderKind::MarketOrder => true,
        OrderKind::LimitOrder(price) => match direction {
            Direction::Long => candle.low < price,
            Direction::Short => candle.high > price,
        },
        OrderKind::StopOrder(price) => match direction {
            Direction::Long => candle.high > price,
            Direction::Short => candle.low < price,
        },
    }
}

/// The order, taken by itself, executes on the candle: it is inside its
/// window of time, it is an order for the candle's instrument, and the
/// candle's prices trigger it.
pub open spec fn eligible(order: OrderView, candle: OhlcvView) -> bool {
    &&& !expired(order, candle)
    &&& order.symbol_id == candle.symbol_id
    &&& !not_yet_active(order, candle)
    &&& triggered(order.kind, order.direction, candle)
}

/// The price at which an order of this kind is filled on the candle: the
/// candle's open for a market order, the order's own price otherwise.
pub open spec fn fill_price(kind: OrderKind, candle: OhlcvView) -> Price {
    match kind {
        OrderKind::MarketOrder => candle.open,
        OrderKind::LimitOrder(price) => price,
        OrderKind::StopOrder(price) => price,
    }
}

/// The fill of the order on the candle.
pub open spec fn fill_of(order: OrderView, candle: OhlcvView) -> ExecutionView {
    ExecutionView {
        symbol_id: order.symbol_id,
        quantity: order.quantity,
        price: fill_price(order.kind, candle),
        datetime: candle.datetime,
    }
}

/// Some order at a position from `from` up to, not including, `to` is in
/// the one-cancels-all group `group` and eligible on the candle.
pub open spec fn group_fills_within(
    orders: Seq<OrderView>,
    candle: OhlcvView,
    group: Seq<char>,
    from: int,
    to: int,
) -> bool {
    exists|k: int|
        from <= k < to && 0 <= k < orders.len() && (#[trigger] orders[k]).oca == Some(group)
            && eligible(orders[k], candle)
}

/// Some order of the one-cancels-all group `group` is eligible on the
/// candle, so that the group is filled at this candle.
pub open spec fn group_fills(orders: Seq<OrderView>, candle: OhlcvView, group: Seq<char>) -> bool {
    group_fills_within(orders, candle, group, 0, orders.len() as int)
}

/// The order at position `i` is filled on the candle: it is eligible, and
/// no order before it in the sequence that shares its one-cancels-all group
/// is.
pub open spec fn fills(orders: Seq<OrderView>, candle: OhlcvView, i: int) -> bool {
    &&& eligible(orders[i], candle)
    &&& orders[i].oca matches Some(group) ==> !group_fills_within(orders, candle, group, 0, i)
}

/// The status that the candle gives to the order at position `i`, or `None`
/// where the candle leaves it as it is.
pub open spec fn new_status(orders: Seq<OrderView>, candle: OhlcvView, i: int) -> Option<
    OrderStatusView,
> {
    let order = orders[i];
    if fills(orders, candle, i) {
        Some(OrderStatusView::Filled(fill_of(order, candle)))
    } else if order.oca is Some && group_fills(orders, candle, order.oca->0) {
        Some(OrderStatusView::Cancelled(CancellationReason::FilledOca))
    } else if expired(order, candle) {
        Some(OrderStatusView::Cancelled(CancellationReason::OutdatedOrder))
    } else {
        None
    }
}

/// The status changes of the first `n` orders, in the order of the orders.
pub open spec fn order_updates_among(orders: Seq<OrderView>, candle: OhlcvView, n: int) -> Seq<
    (Seq<char>, OrderStatusView),
>
    decreases n,
{
    if n <= 0 {
        Seq::empty()
    } else {
        let before = order_updates_among(orders, candle, n - 1);
        match new_status(orders, candle, n - 1) {
            Some(status) => before.push((orders[n - 1].id, status)),
            None => before,
        }
    }
}

/// The status changes that the candle brings to the orders: for each order
/// that is filled or cancelled, in the order of the orders, its identifier
/// and its new status.
pub open spec fn order_updates(orders: Seq<OrderView>, candle: OhlcvView) -> Seq<
    (Seq<char>, OrderStatusView),
> {
    order_updates_among(orders, candle, orders.len() as int)
}

/// The order matching engine.
#[derive(Clone, Copy, Debug)]
pub struct MarketSimulation;

impl MarketSimulation {
    pub fn new() -> MarketSimulation {
        MarketSimulation {  }
    }

    /// Matches the orders, in the order given, against one candle, and
    /// returns the status changes. The orders themselves are left as they
    /// are.
    pub fn update_orders(&self, orders: &Vec<Order>, ohlcv: &Ohlcv) -> (updates: Vec<
        (OrderId, OrderStatus),
    >)
        ensures
            update_views(updates@) == order_updates(order_views(orders@), ohlcv@),
    {
        let ghost views = order_views(orders@);
        let ghost candle = ohlcv@;
        let mut flags: Vec<bool> = Vec::new();
        let mut i: usize = 0;
        while i < orders.len()
            invariant
                i <= orders.len(),
                flags.len() == i,
                views == order_views(orders@),
                candle == ohlcv@,
                forall|k: int| 0 <= k < i ==> flags[k] == eligible(#[trigger] views[k], candle),
            decreases orders.len() - i,
        {
            let flag = is_eligible(&orders[i], ohlcv);
            flags.push(flag);
            i = i + 1;
        }
        let mut updates: Vec<(OrderId, OrderStatus)> = Vec::new();
        let mut i: usize = 0;
        while i < orders.len()
            invariant
                i <= orders.len(),
                flags.len() == orders.len(),
                views == order_views(orders@),
                candle == ohlcv@,
                forall|k: int|
                    0 <= k < orders.len() ==> flags[k] == eligible(#[trigger] views[k], candle),
                update_views(updates@) == order_updates_among(views, candle, i as int),
            decreases orders.len() - i,
        {
            let order = &orders[i];
            let ghost before = update_views(updates@);
            let status = status_at(orders, &flags, ohlcv, i);
            match status {
                Some(status) => {
                    let ghost shown = status@;
                    updates.push((order.id().clone(), status));
                    assert(update_views(updates@) =~= before.push((views[i as int].id, shown)));
                },
                None => {},
            }
            i = i + 1;
        }
        updates
    }
}

/// Whether the order, taken by itself, executes on the candle.
fn is_eligible(order: &Order, ohlcv: &Ohlcv) -> (r: bool)
    ensures
        r == eligible(order@, ohlcv@),
{
    if let Some(active_until) = order.active_until() {
        if active_until.is_not_after(ohlcv.datetime()) {
            return false;
        }
    }
    let same_symbol = *order.symbol_id() == *ohlcv.symbol_id();
    if !same_symbol {
        return false;
    }
    if let Some(active_after) = order.active_after() {
        if ohlcv.datetime().is_before(active_after) {
            return false;
        }
    }
    match *order.kind() {
        OrderKind::MarketOrder => true,
        OrderKind::LimitOrder(price) => match *order.direction() {
            Direction::Long => ohlcv.low() < price,
            Direction::Short => ohlcv.high() > price,
        },
        OrderKind::StopOrder(price) => match *order.direction() {
            Direction::Long => ohlcv.high() > price,
            Direction::Short => ohlcv.low() < price,
        },
    }
}

/// Whether an eligible order of the group stands at a position from `from`
/// up to, not including, `to`.
fn eligible_in_group(
    orders: &Vec<Order>,
    flags: &Vec<bool>,
    group: &OcaGroup,
    Ghost(candle): Ghost<OhlcvView>,
    from: usize,
    to: usize,
) -> (r: bool)
    requires
        flags.len() == orders.len(),
        from <= to <= orders.len(),
        forall|k: int|
            0 <= k < orders.len() ==> flags[k] == eligible(
                #[trigger] order_views(orders@)[k],
                candle,
            ),
    ensures
        r == group_fills_within(order_views(orders@), candle, group@, from as int, to as int),
{
    let ghost views = order_views(orders@);
    let mut k: usize = from;
    while k < to
        invariant
            from <= k <= to <= orders.len(),
            flags.len() == orders.len(),
            views == order_views(orders@),
            forall|j: int|
                0 <= j < orders.len() ==> flags[j] == eligible(#[trigger] views[j], candle),
            !group_fills_within(views, candle, group@, from as int, k as int),
        decreases to - k,
    {
        if flags[k] {
            if let Some(other) = orders[k].oca() {
                if *other == *group {
                    assert(views[k as int].oca == Some(group@));
                    return true;
                }
            }
        }
        k = k + 1;
    }
    false
}

/// The status that the candle gives to the order at position `i`.
fn status_at(orders: &Vec<Order>, flags: &Vec<bool>, ohlcv: &Ohlcv, i: usize) -> (r: Option<
    OrderStatus,
>)
    requires
        flags.len() == orders.len(),
        i < orders.len(),
        forall|k: int|
            0 <= k < orders.len() ==> flags[k] == eligible(
                #[trigger] order_views(orders@)[k],
                ohlcv@,
            ),
    ensures
        match r {
            Some(status) => new_status(order_views(orders@), ohlcv@, i as int) == Some(status@),
            None => new_status(order_views(orders@), ohlcv@, i as int) is None,
        },
{
    let ghost views = order_views(orders@);
    let ghost candle = ohlcv@;
    let order = &orders[i];
    assert(views[i as int] == order@);
    let mut preceded = false;
    let mut group_filled = false;
    if let Some(group) = order.oca() {
        preceded = eligible_in_group(orders, flags, group, Ghost(candle), 0, i);
        group_filled = preceded || eligible_in_group(
            orders,
            flags,
            group,
            Ghost(candle),
            i,
            orders.len(),
        );
        assert(group_filled == group_fills(views, candle, group@)) by {
            if group_fills(views, candle, group@) {
                let k = choose|k: int|
                    0 <= k < views.len() && (#[trigger] views[k]).oca == Some(group@) && eligible(
                        views[k],
                        candle,
                    );
                if k < i {
                    assert(group_fills_within(views, candle, group@, 0, i as int));
                } else {
                    assert(group_fills_within(views, candle, group@, i as int, views.len() as int));
                }
            }
        }
    }
    if flags[i] && !preceded {
        let price = match *order.kind() {
            OrderKind::MarketOrder => ohlcv.open(),
            OrderKind::LimitOrder(price) => price,
            OrderKind::StopOrder(price) => price,
        };
        Some(
            OrderStatus::Filled(
                Execution::new(
                    order.symbol_id().clone(),
                    order.quantity(),
                    price,
                    *ohlcv.datetime(),
                ),
            ),
        )
    } else if group_filled {
        Some(OrderStatus::Cancelled(CancellationReason::FilledOca))
    } else {
        let outdated = match order.active_until() {
            Some(active_until) => active_until.is_not_after(ohlcv.datetime()),
            None => false,
        };
        if outdated {
            Some(OrderStatus::Cancelled(CancellationReason::OutdatedOrder))
        } else {
            None
        }
    }
}

/// Where an eligible order of a one-cancels-all group has no eligible order
/// of the group before it, it is filled, and every other order of the
/// group, before or after it, eligible or not, is cancelled because the
/// group was filled.
pub proof fn law_first_eligible_of_group_fills(orders: Seq<OrderView>, candle: OhlcvView, first: int, other: int)
    requires
        0 <= first < orders.len(),
        0 <= other < orders.len(),
        other != first,
        orders[first].oca is Some,
        orders[other].oca == orders[first].oca,
        eligible(orders[first], candle),
        forall|j: int|
            0 <= j < first && (#[trigger] orders[j]).oca == orders[first].oca ==> !eligible(
                orders[j],
                candle,
            ),
    ensures
        new_status(orders, candle, first) == Some(
            OrderStatusView::Filled(fill_of(orders[first], candle)),
        ),
        new_status(orders, candle, other) == Some(
            OrderStatusView::Cancelled(CancellationReason::FilledOca),
        ),
{
    let group = orders[first].oca->0;
    assert(group_fills(orders, candle, group)) by {
        assert(orders[first].oca == Some(group));
    }
    if other > first {
        assert(group_fills_within(orders, candle, group, 0, other)) by {
            assert(orders[first].oca == Some(group));
        }
    }
}

/// Of two orders of one group, the later one is never filled where the
/// earlier one is eligible: it is cancelled because the group was filled.
pub proof fn law_oca_later_order_is_cancelled(
    orders: Seq<OrderView>,
    candle: OhlcvView,
    i: int,
    j: int,
)
    requires
        0 <= i < j < orders.len(),
        orders[i].oca is Some,
        orders[j].oca == orders[i].oca,
        eligible(orders[i], candle),
    ensures
        new_status(orders, candle, j) == Some(
            OrderStatusView::Cancelled(CancellationReason::FilledOca),
        ),
{
    let group = orders[i].oca->0;
    assert(orders[i].oca == Some(group));
    assert(group_fills_within(orders, candle, group, 0, j));
    assert(group_fills(orders, candle, group));
}

/// An order whose active-until bound is reached is cancelled as outdated,
/// whatever the candle's prices are, unless its one-cancels-all group is
/// filled at the same candle.
pub proof fn law_expired_order_is_outdated(orders: Seq<OrderView>, candle: OhlcvView, i: int)
    requires
        0 <= i < orders.len(),
        expired(orders[i], candle),
        orders[i].oca matches Some(group) ==> !group_fills(orders, candle, group),
    ensures
        new_status(orders, candle, i) == Some(
            OrderStatusView::Cancelled(CancellationReason::OutdatedOrder),
        ),
{
}

/// An order whose active-until bound is reached is cancelled, for the one
/// reason or the other, and never filled.
pub proof fn law_expired_order_is_cancelled(orders: Seq<OrderView>, candle: OhlcvView, i: int)
    requires
        0 <= i < orders.len(),
        expired(orders[i], candle),
    ensures
        new_status(orders, candle, i) matches Some(OrderStatusView::Cancelled(_)),
{
}

/// A candle of another instrument never fills an order.
pub proof fn law_other_instrument_never_fills(orders: Seq<OrderView>, candle: OhlcvView, i: int)
    requires
        0 <= i < orders.len(),
        orders[i].symbol_id != candle.symbol_id,
    ensures
        !(new_status(orders, candle, i) matches Some(OrderStatusView::Filled(_))),
{
}

/// A candle of another instrument leaves an order as it is, unless the
/// order's active-until bound is reached or its one-cancels-all group is
/// filled at that candle.
pub proof fn law_other_instrument_changes_nothing(orders: Seq<OrderView>, candle: OhlcvView, i: int)
    requires
        0 <= i < orders.len(),
        orders[i].symbol_id != candle.symbol_id,
        !expired(orders[i], candle),
        orders[i].oca matches Some(group) ==> !group_fills(orders, candle, group),
    ensures
        new_status(orders, candle, i) is None,
{
}

/// A stop order to sell, without bounds in time and in no one-cancels-all
/// group, is filled by a candle of its instrument whose low is below its
/// price: at that price, at the candle's time, in its own quantity.
pub proof fn law_short_stop_fills_at_its_price(
    orders: Seq<OrderView>,
    candle: OhlcvView,
    i: int,
    price: Price,
)
    requires
        0 <= i < orders.len(),
        orders[i].kind == OrderKind::StopOrder(price),
        orders[i].direction == Direction::Short,
        orders[i].symbol_id == candle.symbol_id,
        orders[i].oca is None,
        orders[i].active_until is None,
        orders[i].active_after is None,
        candle.low < price,
    ensures
        new_status(orders, candle, i) == Some(
            OrderStatusView::Filled(
                ExecutionView {
                    symbol_id: orders[i].symbol_id,
                    quantity: orders[i].quantity,
                    price,
                    datetime: candle.datetime,
                },
            ),
        ),
{
}

/// Of a stop-loss and a take-profit that are the only orders of their
/// one-cancels-all group, both orders to sell on the candle's instrument
/// and without bounds in time: a candle whose high is above the price of the
/// take-profit and whose low is not below the price of the stop-loss fills
/// the take-profit at its price and cancels the stop-loss, because the group
/// was filled.
pub proof fn law_take_profit_cancels_stop_loss(
    orders: Seq<OrderView>,
    candle: OhlcvView,
    stop_loss: int,
    take_profit: int,
    stop: Price,
    limit: Price,
)
    requires
        0 <= stop_loss < orders.len(),
        0 <= take_profit < orders.len(),
        stop_loss != take_profit,
        orders[stop_loss].kind == OrderKind::StopOrder(stop),
        orders[take_profit].kind == OrderKind::LimitOrder(limit),
        orders[stop_loss].direction == Direction::Short,
        orders[take_profit].direction == Direction::Short,
        orders[stop_loss].symbol_id == candle.symbol_id,
        orders[take_profit].symbol_id == candle.symbol_id,
        orders[take_profit].oca is Some,
        orders[stop_loss].oca == orders[take_profit].oca,
        forall|k: int|
            0 <= k < orders.len() && (#[trigger] orders[k]).oca == orders[take_profit].oca ==> k
                == stop_loss || k == take_profit,
        orders[stop_loss].active_until is None,
        orders[stop_loss].active_after is None,
        orders[take_profit].active_until is None,
        orders[take_profit].active_after is None,
        candle.high > limit,
        candle.low >= stop,
    ensures
        new_status(orders, candle, take_profit) == Some(
            OrderStatusView::Filled(
                ExecutionView {
                    symbol_id: orders[take_profit].symbol_id,
                    quantity: orders[take_profit].quantity,
                    price: limit,
                    datetime: candle.datetime,
                },
            ),
        ),
        new_status(orders, candle, stop_loss) == Some(
            OrderStatusView::Cancelled(CancellationReason::FilledOca),
        ),
{
    assert(eligible(orders[take_profit], candle));
    assert(!eligible(orders[stop_loss], candle));
    law_first_eligible_of_group_fills(orders, candle, take_profit, stop_loss);
}

/// Every status change is terminal.
pub proof fn law_new_status_is_terminal(orders: Seq<OrderView>, candle: OhlcvView, i: int)
    requires
        0 <= i < orders.len(),
    ensures
        new_status(orders, candle, i) matches Some(status) ==> status.is_terminal(),
{
}

/// What the list of status changes of the first `n` orders holds: each
/// entry is the new status of one of these orders, each of these orders
/// with a new status has its entry, and where the orders' identifiers are
/// distinct, so are those of the entries.
pub proof fn lemma_order_updates_among(orders: Seq<OrderView>, candle: OhlcvView, n: int)
    requires
        0 <= n <= orders.len(),
    ensures
        order_updates_among(orders, candle, n).len() <= n,
        forall|p: int|
            #![trigger order_updates_among(orders, candle, n)[p]]
            0 <= p < order_updates_among(orders, candle, n).len() ==> exists|i: int|
                0 <= i < n && (#[trigger] orders[i]).id == order_updates_among(
                    orders,
                    candle,
                    n,
                )[p].0 && new_status(orders, candle, i) == Some(
                    order_updates_among(orders, candle, n)[p].1,
                ),
        forall|i: int|
            0 <= i < n && (#[trigger] new_status(orders, candle, i)) is Some ==> exists|p: int|
                0 <= p < order_updates_among(orders, candle, n).len() && (
                #[trigger] order_updates_among(orders, candle, n)[p]) == (
                    orders[i].id,
                    new_status(orders, candle, i)->0,
                ),
        distinct_ids(orders) ==> forall|p: int, q: int|
            0 <= p < q < order_updates_among(orders, candle, n).len() ==> (
            #[trigger] order_updates_among(orders, candle, n)[p]).0 != (
            #[trigger] order_updates_among(orders, candle, n)[q]).0,
    decreases n,
{
    if n > 0 {
        lemma_order_updates_among(orders, candle, n - 1);
        let before = order_updates_among(orders, candle, n - 1);
        let now = order_updates_among(orders, candle, n);
        assert forall|p: int| #![trigger now[p]] 0 <= p < now.len() implies exists|i: int|
            0 <= i < n && (#[trigger] orders[i]).id == now[p].0 && new_status(orders, candle, i)
                == Some(now[p].1) by {
            if p < before.len() {
                assert(now[p] == before[p]);
                let i = choose|i: int|
                    0 <= i < n - 1 && (#[trigger] orders[i]).id == before[p].0 && new_status(
                        orders,
                        candle,
                        i,
                    ) == Some(before[p].1);
                assert(orders[i].id == now[p].0);
            } else {
                assert(orders[n - 1].id == now[p].0);
            }
        }
        assert forall|i: int|
            0 <= i < n && (#[trigger] new_status(orders, candle, i)) is Some implies exists|p: int|
            0 <= p < now.len() && (#[trigger] now[p]) == (
                orders[i].id,
                new_status(orders, candle, i)->0,
            ) by {
            if i < n - 1 {
                let p = choose|p: int|
                    0 <= p < before.len() && (#[trigger] before[p]) == (
                        orders[i].id,
                        new_status(orders, candle, i)->0,
                    );
                assert(now[p] == before[p]);
            } else {
                assert(now[now.len() - 1] == (orders[i].id, new_status(orders, candle, i)->0));
            }
        }
        if distinct_ids(orders) {
            assert forall|p: int, q: int| 0 <= p < q < now.len() implies (#[trigger] now[p]).0 != (
            #[trigger] now[q]).0 by {
                if q < before.len() {
                    assert(now[p] == before[p] && now[q] == before[q]);
                } else {
                    assert(now[p] == before[p]);
                    let i = choose|i: int|
                        0 <= i < n - 1 && (#[trigger] orders[i]).id == before[p].0 && new_status(
                            orders,
                            candle,
                            i,
                        ) == Some(before[p].1);
                    assert(orders[i].id != orders[n - 1].id);
                }
            }
        }
    }
}

} // verus!
