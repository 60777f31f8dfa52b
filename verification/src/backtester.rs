use vstd::prelude::*;
use crate::market_simulation::{lemma_order_updates_among, order_updates, MarketSimulation};
use crate::model::Model;
use crate::ohlcv::{Ohlcv, OhlcvView};
use crate::order::{
    distinct_ids, order_views, update_views, GenerateOrderId, Order, OrderBuilder,
    OrderBuilderView, OrderStatus, OrderStatusView, OrderView, UUIDOrderIdGenerator,
};
use crate::portfolio::{
    closed_among, closes_among, has_id, lemma_order_with_id, lemma_sorted_is_distinct,
    lemma_sorted_orders_are_determined, order_with_id, Portfolio,
};
use crate::strategy::{
    closed_views, closing_views, draft_views, entry_of, given_by_models, initialized,
    healthy, kept_or_spawned, lifecycle_among, passed, run_all, same_identifiers, Strategy,
    StrategyCollection, StrategyError, StrategyManager,
};
use crate::timestamp::Timestamp;

verus! {

/// The simulation loop: it replays candles through the matching engine, the
/// portfolio and the strategy lifecycle manager.
pub struct Backtester<G: GenerateOrderId + ?Sized = dyn GenerateOrderId> {
    market_simulation: MarketSimulation,
    strategy_manager: StrategyManager,
    order_id_generator: Box<G>,
}

/// Why a backtest ended early.
#[derive(Clone, Copy, Debug, PartialEq, Eq, Structural)]
pub enum BacktesterError {
    /// A strategy could not be run.
    StrategyError(StrategyError),
    /// The strategies gave an order whose identifier another order already
    /// has.
    DuplicateOrderId,
}

/// The orders that the drafts become under the identifiers they carry.
pub open spec fn committed_orders(drafts: Seq<OrderBuilderView>) -> Seq<OrderView> {
    Seq::new(drafts.len(), |i: int| drafts[i].committed(drafts[i].id->0))
}

/// The portfolio takes these orders: no two of them share an identifier, and
/// none has the identifier of an order of the portfolio.
pub open spec fn acceptable(portfolio: Portfolio, orders: Seq<OrderView>) -> bool {
    distinct_ids(orders) && forall|i: int|
        0 <= i < orders.len() ==> !portfolio.holds((#[trigger] orders[i]).id)
}

/// Every order of the portfolio is bound to the strategy that made it.
pub open spec fn all_bound<'a, M: Model>(
    portfolio: Portfolio,
    strategies: StrategyCollection<'a, M>,
) -> bool {
    forall|id: Seq<char>| #[trigger] portfolio.holds(id) ==> strategies.bindings().contains_key(id)
}

/// One of the orders has the identifier `id` and is filled.
pub open spec fn filled_among(orders: Seq<OrderView>, id: Seq<char>) -> bool {
    exists|i: int|
        0 <= i < orders.len() && (#[trigger] orders[i]).id == id && orders[i].status is Filled
}

/// Every exit strategy exits for an entry order that is closed and filled.
pub open spec fn exits_paired<'a, M: Model>(
    portfolio: Portfolio,
    strategies: StrategyCollection<'a, M>,
) -> bool {
    forall|id: Seq<char>| #[trigger]
        strategies.types().contains_key(id) ==> match entry_of(strategies.types()[id]) {
            Some(entry) => filled_among(portfolio.closed_view(), entry),
            None => true,
        }
}

/// A filled order stays among the filled orders where the orders stay.
pub proof fn lemma_filled_stays(before: Seq<OrderView>, after: Seq<OrderView>, id: Seq<char>)
    requires
        filled_among(before, id),
        forall|c: OrderView| before.contains(c) ==> #[trigger] after.contains(c),
    ensures
        filled_among(after, id),
{
    let i = choose|i: int|
        0 <= i < before.len() && (#[trigger] before[i]).id == id && before[i].status is Filled;
    assert(before.contains(before[i]));
    assert(after.contains(before[i]));
    let k = choose|k: int| 0 <= k < after.len() && after[k] == before[i];
    assert(after[k].id == id);
}

/// The closed orders that the status changes name, as they stand among the
/// closed orders `closed`.
pub open spec fn closed_for(
    closed: Seq<OrderView>,
    changes: Seq<(Seq<char>, OrderStatusView)>,
) -> Seq<OrderView> {
    Seq::new(changes.len(), |q: int| order_with_id(closed, changes[q].0))
}

/// The portfolio `p1` and the strategies `s1` are what matching the candle
/// makes of `p0` and `s0`. The status changes are those of the matching
/// engine for the active orders of `p0`. In the portfolio each order that
/// they close has moved to the closed orders, in its new status, and nothing
/// else has changed. Of the strategies, the entry strategies and the bindings
/// are the same, and the exit strategies and descriptors are what the
/// changes make of them, one after the other, where each model that is asked
/// is handed the closed order and gives strategies that it may give for it.
pub open spec fn matched<'a, M: Model>(
    p0: Portfolio,
    s0: StrategyCollection<'a, M>,
    candle: OhlcvView,
    p1: Portfolio,
    s1: StrategyCollection<'a, M>,
) -> bool {
    let changes = order_updates(p0.active_view(), candle);
    &&& p1.well_formed()
    &&& s1.well_formed()
    &&& all_bound(p1, s1)
    &&& exits_paired(p0, s0) ==> exits_paired(p1, s1)
    &&& forall|o: OrderView| #[trigger]
        p1.active_view().contains(o) <==> p0.active_view().contains(o) && !closes_among(
            changes,
            changes.len() as int,
            o.id,
        )
    &&& forall|c: OrderView| #[trigger]
        p1.closed_view().contains(c) <==> p0.closed_view().contains(c) || closed_among(
            p0.active_view(),
            changes,
            changes.len() as int,
            c,
        )
    &&& forall|id: Seq<char>| #[trigger] p1.holds(id) <==> p0.holds(id)
    &&& s1.entry_strategies@ == s0.entry_strategies@
    &&& s1.bindings() == s0.bindings()
    &&& exists|spawned: Seq<Seq<Strategy>>|
        spawned.len() == changes.len() && s1.lifecycle() == #[trigger] lifecycle_among(
            s0.lifecycle(),
            s0.bindings(),
            changes,
            spawned,
            changes.len() as int,
        ) && given_by_models(
            s0.lifecycle(),
            s0.bindings(),
            closed_for(p1.closed_view(), changes),
            changes,
            spawned,
            changes.len() as int,
        )
}

/// The strategies `s1` are what a pass at `datetime` makes of `s0`: the same
/// strategies, place by place, with the same descriptors, and with the
/// bindings of the pass. Each strategy before which none fails, the entry
/// strategies first, has been run once, and each other one is as it was.
pub open spec fn ran<'a, M: Model, G: GenerateOrderId + ?Sized>(
    s0: StrategyCollection<'a, M>,
    datetime: Timestamp,
    generator: &G,
    s1: StrategyCollection<'a, M>,
) -> bool {
    &&& s1.well_formed()
    &&& same_identifiers(s1.entry_strategies@, s0.entry_strategies@)
    &&& same_identifiers(s1.exit_strategies@, s0.exit_strategies@)
    &&& passed(s1.entry_strategies@, s0.entry_strategies@, datetime, true)
    &&& passed(
        s1.exit_strategies@,
        s0.exit_strategies@,
        datetime,
        healthy(s0.entry_strategies@, datetime, s0.entry_strategies.len() as int),
    )
    &&& s1.types() == s0.types()
    &&& s1.bindings() == run_all(s0, datetime, generator).bindings
}

/// The portfolio `p1` and the strategies `s1` are what placing the orders of
/// a pass at `datetime` makes of `p0` and `s0`: no strategy failed, the
/// portfolio took the orders that the drafts of the pass became, and holds
/// them beside the orders it held.
pub open spec fn placed<'a, M: Model, G: GenerateOrderId + ?Sized>(
    p0: Portfolio,
    s0: StrategyCollection<'a, M>,
    datetime: Timestamp,
    generator: &G,
    p1: Portfolio,
    s1: StrategyCollection<'a, M>,
) -> bool {
    let done = run_all(s0, datetime, generator);
    let orders = committed_orders(done.drafts);
    &&& ran(s0, datetime, generator, s1)
    &&& p1.well_formed()
    &&& all_bound(p0, s0) ==> all_bound(p1, s1)
    &&& exits_paired(p0, s0) ==> exits_paired(p1, s1)
    &&& done.failure is None
    &&& acceptable(p0, orders)
    &&& forall|o: OrderView| #[trigger]
        p1.active_view().contains(o) <==> p0.active_view().contains(o) || (orders.contains(o)
            && !o.status.is_terminal())
    &&& forall|o: OrderView| #[trigger]
        p1.closed_view().contains(o) <==> p0.closed_view().contains(o) || (orders.contains(o)
            && o.status.is_terminal())
}

/// Placing the orders of a pass at `datetime` fails with `error` on `p0` and
/// `s0`: with the failure of the first strategy that fails, or, where none
/// fails, because the portfolio does not take the orders.
pub open spec fn not_placed<'a, M: Model, G: GenerateOrderId + ?Sized>(
    p0: Portfolio,
    s0: StrategyCollection<'a, M>,
    datetime: Timestamp,
    generator: &G,
    error: BacktesterError,
) -> bool {
    let done = run_all(s0, datetime, generator);
    match error {
        BacktesterError::StrategyError(e) => done.failure == Some(e),
        BacktesterError::DuplicateOrderId => done.failure is None && !acceptable(
            p0,
            committed_orders(done.drafts),
        ),
    }
}

/// The orders of the portfolio after a candle was matched depend on the
/// portfolio and the candle alone.
pub proof fn law_matching_is_determined<'a, M: Model>(
    p0: Portfolio,
    s0: StrategyCollection<'a, M>,
    candle: OhlcvView,
    p1: Portfolio,
    s1: StrategyCollection<'a, M>,
    q1: Portfolio,
    t1: StrategyCollection<'a, M>,
)
    requires
        matched(p0, s0, candle, p1, s1),
        matched(p0, s0, candle, q1, t1),
    ensures
        p1.active_view() == q1.active_view(),
        p1.closed_view() == q1.closed_view(),
{
    lemma_sorted_orders_are_determined(p1.active_view(), q1.active_view());
    lemma_sorted_orders_are_determined(p1.closed_view(), q1.closed_view());
}

/// The orders of the portfolio and the bindings after the orders of a pass
/// were placed depend on the portfolio, the strategies, the time and the
/// generator alone.
pub proof fn law_placing_is_determined<'a, M: Model, G: GenerateOrderId + ?Sized>(
    p0: Portfolio,
    s0: StrategyCollection<'a, M>,
    datetime: Timestamp,
    generator: &G,
    p1: Portfolio,
    s1: StrategyCollection<'a, M>,
    q1: Portfolio,
    t1: StrategyCollection<'a, M>,
)
    requires
        placed(p0, s0, datetime, generator, p1, s1),
        placed(p0, s0, datetime, generator, q1, t1),
    ensures
        p1.active_view() == q1.active_view(),
        p1.closed_view() == q1.closed_view(),
        s1.bindings() == t1.bindings(),
        s1.types() == t1.types(),
{
    lemma_sorted_orders_are_determined(p1.active_view(), q1.active_view());
    lemma_sorted_orders_are_determined(p1.closed_view(), q1.closed_view());
}

/// The candle at place `n` opens a new time: it is the first one, or the one
/// before it has another time.
pub open spec fn new_time(candles: Seq<Ohlcv>, n: int) -> bool {
    n == 0 || candles[n - 1]@.datetime != candles[n]@.datetime
}

/// The portfolio `p` and the strategies `s` are what replaying the first `n`
/// candles through the models makes. Before the first candle the portfolio
/// is empty and the strategies are those the models start with. Each candle
/// is matched; then, where it opens a new time, the orders of a pass at its
/// time are placed, and where it does not, nothing more happens.
pub open spec fn replayed<'a, M: Model, G: GenerateOrderId + ?Sized>(
    models: Seq<M>,
    candles: Seq<Ohlcv>,
    generator: &G,
    n: int,
    p: Portfolio,
    s: StrategyCollection<'a, M>,
) -> bool
    decreases n,
{
    if n <= 0 {
        p.active_view().len() == 0 && p.closed_view().len() == 0 && initialized(models, s)
    } else {
        exists|
            p0: Portfolio,
            s0: StrategyCollection<'a, M>,
            p1: Portfolio,
            s1: StrategyCollection<'a, M>,
        |
            replayed(models, candles, generator, n - 1, p0, s0) && (#[trigger] matched(
                p0,
                s0,
                candles[n - 1]@,
                p1,
                s1,
            )) && if new_time(candles, n - 1) {
                placed(p1, s1, candles[n - 1]@.datetime, generator, p, s)
            } else {
                p == p1 && s == s1
            }
    }
}

/// A sequence of orders that holds no order of an empty sequence, and no
/// other, is empty.
proof fn lemma_no_order(before: Seq<OrderView>, after: Seq<OrderView>)
    requires
        before.len() == 0,
        forall|o: OrderView| #[trigger] after.contains(o) ==> before.contains(o),
    ensures
        after.len() == 0,
{
    if after.len() > 0 {
        assert(after.contains(after[0]));
        assert(before.contains(after[0]));
    }
}

/// Where no order is active, a candle changes nothing: no order is closed,
/// and no model is asked.
proof fn lemma_nothing_to_match<'a, M: Model>(
    p0: Portfolio,
    s0: StrategyCollection<'a, M>,
    candle: OhlcvView,
    p1: Portfolio,
    s1: StrategyCollection<'a, M>,
)
    requires
        matched(p0, s0, candle, p1, s1),
        p0.active_view().len() == 0,
        p0.closed_view().len() == 0,
    ensures
        p1.active_view().len() == 0,
        p1.closed_view().len() == 0,
        s1.exit_strategies@ == s0.exit_strategies@,
{
    let changes = order_updates(p0.active_view(), candle);
    assert(changes.len() == 0);
    lemma_no_order(p0.active_view(), p1.active_view());
    assert forall|c: OrderView| #[trigger] p1.closed_view().contains(c) implies p0.closed_view().contains(
        c,
    ) by {
        if closed_among(p0.active_view(), changes, 0, c) {
        }
    }
    lemma_no_order(p0.closed_view(), p1.closed_view());
}

/// Where there is no strategy, a pass gives no draft and cannot fail, and
/// the portfolio takes the orders, of which there are none.
proof fn lemma_nothing_to_place<'a, M: Model, G: GenerateOrderId + ?Sized>(
    p: Portfolio,
    s: StrategyCollection<'a, M>,
    datetime: Timestamp,
    generator: &G,
)
    requires
        s.entry_strategies.len() == 0,
        s.exit_strategies.len() == 0,
    ensures
        run_all(s, datetime, generator).failure is None,
        committed_orders(run_all(s, datetime, generator).drafts).len() == 0,
        acceptable(p, committed_orders(run_all(s, datetime, generator).drafts)),
{
}

impl Backtester<UUIDOrderIdGenerator> {
    /// A backtester that names the orders by name-based UUIDs.
    pub fn new() -> (r: Self) {
        Backtester {
            market_simulation: MarketSimulation::new(),
            strategy_manager: StrategyManager::new(),
            order_id_generator: Box::new(UUIDOrderIdGenerator::new()),
        }
    }
}

impl<G: GenerateOrderId + ?Sized> Backtester<G> {
    /// The generator that names the orders.
    pub closed spec fn generator(&self) -> &G {
        &*self.order_id_generator
    }

    pub fn market_simulation(&self) -> &MarketSimulation {
        &self.market_simulation
    }

    pub fn set_market_simulation(self, market_simulation: MarketSimulation) -> (r: Self)
        ensures
            r.generator() == self.generator(),
    {
        let mut backtester = self;
        backtester.market_simulation = market_simulation;
        backtester
    }

    pub fn strategy_manager(&self) -> &StrategyManager {
        &self.strategy_manager
    }

    pub fn set_strategy_manager(self, strategy_manager: StrategyManager) -> (r: Self)
        ensures
            r.generator() == self.generator(),
    {
        let mut backtester = self;
        backtester.strategy_manager = strategy_manager;
        backtester
    }

    pub fn order_id_generator(&self) -> (r: &Box<G>)
        ensures
            &**r == self.generator(),
    {
        &self.order_id_generator
    }

    /// The same backtester with another generator of identifiers.
    pub fn set_order_id_generator<H: GenerateOrderId + ?Sized>(
        self,
        order_id_generator: Box<H>,
    ) -> (r: Backtester<H>)
        ensures
            r.generator() == &*order_id_generator,
    {
        Backtester {
            market_simulation: self.market_simulation,
            strategy_manager: self.strategy_manager,
            order_id_generator,
        }
    }

    /// Matches the active orders against one candle, moves the orders that
    /// were filled or cancelled to the closed orders, and tells the strategy
    /// lifecycle manager of each of them, as it stands among the closed
    /// orders.
    pub fn match_candle<'a, M: Model>(
        &self,
        portfolio: &mut Portfolio,
        strategy_collection: &mut StrategyCollection<'a, M>,
        candle: &Ohlcv,
    )
        requires
            old(portfolio).well_formed(),
            old(strategy_collection).well_formed(),
            all_bound(*old(portfolio), *old(strategy_collection)),
        ensures
            matched(
                *old(portfolio),
                *old(strategy_collection),
                candle@,
                *final(portfolio),
                *final(strategy_collection),
            ),
    {
        let ghost active = portfolio.active_view();
        let ghost changes = order_updates(active, candle@);
        let updates = self.market_simulation.update_orders(portfolio.active_orders(), candle);
        proof {
            lemma_order_updates_among(active, candle@, active.len() as int);
            lemma_sorted_is_distinct(active);
            assert forall|p: int|
                0 <= p < updates.len() && (#[trigger] update_views(updates@)[p]).1.is_terminal()
                implies has_id(active, update_views(updates@)[p].0) by {
                let i = choose|i: int|
                    0 <= i < active.len() && (#[trigger] active[i]).id == changes[p].0;
            }
        }
        portfolio.update_orders(&updates);
        let mut closed: Vec<(&Order, OrderStatus)> = Vec::new();
        let mut p: usize = 0;
        while p < updates.len()
            invariant
                p <= updates.len(),
                closed.len() == p,
                portfolio.well_formed(),
                update_views(updates@) == changes,
                active == old(portfolio).active_view(),
                changes == order_updates(active, candle@),
                forall|c: OrderView| #[trigger]
                    portfolio.closed_view().contains(c) <==> old(portfolio).closed_view().contains(c)
                        || closed_among(active, changes, changes.len() as int, c),
                forall|q: int|
                    0 <= q < changes.len() ==> exists|i: int|
                        0 <= i < active.len() && (#[trigger] active[i]).id == (
                        #[trigger] changes[q]).0 && changes[q].1.is_terminal(),
                forall|q: int|
                    0 <= q < p ==> old(portfolio).holds((#[trigger] closed[q]).0@.id)
                        && portfolio.closed_view().contains(closed[q].0@) && closed[q].0@.status
                        == closed[q].1@ && closed[q].0@.id == changes[q].0 && closed[q].1@
                        == changes[q].1 && closed[q].0@ == order_with_id(
                        portfolio.closed_view(),
                        changes[q].0,
                    ),
            decreases updates.len() - p,
        {
            assert(changes[p as int] == (updates[p as int].0@, updates[p as int].1@));
            proof {
                let i = choose|i: int|
                    0 <= i < active.len() && (#[trigger] active[i]).id == changes[p as int].0
                        && changes[p as int].1.is_terminal();
                let moved = active[i].with_status(changes[p as int].1);
                assert(closed_among(active, changes, changes.len() as int, moved));
                assert(portfolio.closed_view().contains(moved));
                let k = choose|k: int|
                    0 <= k < portfolio.closed_view().len() && portfolio.closed_view()[k] == moved;
                assert(portfolio.closed_view()[k].id == updates[p as int].0@);
                assert(has_id(portfolio.closed_view(), updates[p as int].0@));
                assert(has_id(active, changes[p as int].0));
            }
            let order = portfolio.closed_order(&updates[p].0).unwrap();
            proof {
                let i = choose|i: int|
                    0 <= i < active.len() && (#[trigger] active[i]).id == changes[p as int].0
                        && changes[p as int].1.is_terminal();
                let moved = active[i].with_status(changes[p as int].1);
                lemma_sorted_is_distinct(portfolio.closed_view());
                let k = choose|k: int|
                    0 <= k < portfolio.closed_view().len() && portfolio.closed_view()[k]
                        == moved;
                let j = choose|j: int|
                    0 <= j < portfolio.closed_view().len() && portfolio.closed_view()[j]
                        == order@;
                if j != k {
                    if j < k {
                        assert(portfolio.closed_view()[j].id
                            != portfolio.closed_view()[k].id);
                    } else {
                        assert(portfolio.closed_view()[k].id
                            != portfolio.closed_view()[j].id);
                    }
                }
                assert(order@ == moved);
                lemma_order_with_id(portfolio.closed_view(), j);
            }
            closed.push((order, updates[p].1.clone()));
            p = p + 1;
        }
        assert(closing_views(closed@) =~= changes);
        assert(closed_views(closed@) =~= closed_for(portfolio.closed_view(), changes));
        let ghost types = strategy_collection.types();
        self.strategy_manager.update_strategies(strategy_collection, &closed);
        proof {
            if exits_paired(*old(portfolio), *old(strategy_collection)) {
                let now = strategy_collection.types();
                assert forall|id: Seq<char>| #[trigger] now.contains_key(id) implies match entry_of(
                    now[id],
                ) {
                    Some(entry) => filled_among(portfolio.closed_view(), entry),
                    None => true,
                } by {
                    assert(kept_or_spawned(types, now, changes, closed.len() as int, id));
                    if entry_of(now[id]) is Some {
                        let entry = entry_of(now[id])->0;
                        if types.contains_key(id) && now[id] == types[id] {
                            lemma_filled_stays(
                                old(portfolio).closed_view(),
                                portfolio.closed_view(),
                                entry,
                            );
                        } else {
                            let q = choose|q: int|
                                0 <= q < closed.len() && (#[trigger] changes[q]).1 is Filled
                                    && entry_of(now[id]) == Some(changes[q].0);
                            assert(portfolio.closed_view().contains(closed[q].0@));
                            let k = choose|k: int|
                                0 <= k < portfolio.closed_view().len() && portfolio.closed_view()[k]
                                    == closed[q].0@;
                            assert(portfolio.closed_view()[k].id == entry);
                        }
                    }
                }
            }
        }
    }

    /// Runs the strategies at `datetime`, commits the drafts they give and
    /// puts the orders into the portfolio. Where a strategy fails, or where
    /// the portfolio does not take the orders, the portfolio stays as it
    /// is.
    pub fn place_orders<'a, M: Model>(
        &self,
        portfolio: &mut Portfolio,
        strategy_collection: &mut StrategyCollection<'a, M>,
        datetime: &Timestamp,
    ) -> (r: Result<(), BacktesterError>)
        requires
            old(portfolio).well_formed(),
            old(strategy_collection).well_formed(),
        ensures
            match r {
                Ok(()) => placed(
                    *old(portfolio),
                    *old(strategy_collection),
                    *datetime,
                    self.generator(),
                    *final(portfolio),
                    *final(strategy_collection),
                ),
                Err(e) => {
                    &&& not_placed(
                        *old(portfolio),
                        *old(strategy_collection),
                        *datetime,
                        self.generator(),
                        e,
                    )
                    &&& ran(
                        *old(strategy_collection),
                        *datetime,
                        self.generator(),
                        *final(strategy_collection),
                    )
                    &&& final(portfolio).well_formed()
                    &&& final(portfolio).active_view() == old(portfolio).active_view()
                    &&& final(portfolio).closed_view() == old(portfolio).closed_view()
                },
            },
    {
        let drafts = match self.strategy_manager.run_strategies(
            strategy_collection,
            datetime,
            &*self.order_id_generator,
        ) {
            Ok(drafts) => drafts,
            Err(e) => {
                return Err(BacktesterError::StrategyError(e));
            },
        };
        let orders = build_orders(&drafts);
        if !portfolio.accepts(&orders) {
            return Err(BacktesterError::DuplicateOrderId);
        }
        proof {
            assert forall|id: Seq<char>|
                has_id(order_views(orders@), id) implies strategy_collection.bindings().contains_key(
                id,
            ) by {
                let i = choose|i: int|
                    0 <= i < orders.len() && (#[trigger] order_views(orders@)[i]).id == id;
                assert(draft_views(drafts@)[i].id == Some(id));
            }
        }
        portfolio.add_orders(orders);
        proof {
            if exits_paired(*old(portfolio), *old(strategy_collection)) {
                let now = strategy_collection.types();
                assert forall|id: Seq<char>| #[trigger] now.contains_key(id) implies match entry_of(
                    now[id],
                ) {
                    Some(entry) => filled_among(portfolio.closed_view(), entry),
                    None => true,
                } by {
                    if entry_of(now[id]) is Some {
                        lemma_filled_stays(
                            old(portfolio).closed_view(),
                            portfolio.closed_view(),
                            entry_of(now[id])->0,
                        );
                    }
                }
            }
        }
        Ok(())
    }

    /// Replays the candles, in the order given, through the models. For
    /// each candle the active orders are matched and the strategies are told
    /// of the orders that were closed; then, unless the candle has the time
    /// of the one before it, the strategies are run and their orders are put
    /// into the portfolio. The first failure ends the backtest.
    pub fn run<'a, M: Model>(&self, models: &'a Vec<M>, ohlcv: &Vec<Ohlcv>) -> (r: Result<
        (Portfolio, StrategyCollection<'a, M>),
        BacktesterError,
    >)
        ensures
            match r {
                Ok((portfolio, strategy_collection)) => {
                    &&& replayed(
                        models@,
                        ohlcv@,
                        self.generator(),
                        ohlcv.len() as int,
                        portfolio,
                        strategy_collection,
                    )
                    &&& portfolio.well_formed()
                    &&& strategy_collection.well_formed()
                    &&& all_bound(portfolio, strategy_collection)
                    &&& exits_paired(portfolio, strategy_collection)
                    &&& strategy_collection.entry_strategies.len() == models.len()
                },
                Err(e) => exists|
                    n: int,
                    p0: Portfolio,
                    s0: StrategyCollection<'a, M>,
                    p1: Portfolio,
                    s1: StrategyCollection<'a, M>,
                |
                    0 <= n < ohlcv.len() && replayed(models@, ohlcv@, self.generator(), n, p0, s0)
                        && (#[trigger] matched(p0, s0, ohlcv[n]@, p1, s1)) && new_time(ohlcv@, n)
                        && not_placed(p1, s1, ohlcv[n]@.datetime, self.generator(), e),
            },
            ohlcv.len() == 0 || models.len() == 0 ==> (r matches Ok(
                (portfolio, strategy_collection),
            ) && portfolio.active_view().len() == 0 && portfolio.closed_view().len() == 0
                && strategy_collection.exit_strategies.len() == 0),
    {
        let mut portfolio = Portfolio::new();
        let mut strategy_collection = self.strategy_manager.initialize_strategy_collection(models);
        let mut previous_datetime: Option<Timestamp> = None;
        assert(all_bound(portfolio, strategy_collection)) by {
            assert forall|id: Seq<char>| !#[trigger] portfolio.holds(id) by {
                if has_id(portfolio.active_view(), id) {
                }
                if has_id(portfolio.closed_view(), id) {
                }
            }
        }
        let mut n: usize = 0;
        while n < ohlcv.len()
            invariant
                n <= ohlcv.len(),
                portfolio.well_formed(),
                strategy_collection.well_formed(),
                all_bound(portfolio, strategy_collection),
                exits_paired(portfolio, strategy_collection),
                strategy_collection.entry_strategies.len() == models.len(),
                replayed(
                    models@,
                    ohlcv@,
                    self.generator(),
                    n as int,
                    portfolio,
                    strategy_collection,
                ),
                previous_datetime == (if n == 0 {
                    None
                } else {
                    Some(ohlcv[n - 1]@.datetime)
                }),
                n == 0 || models.len() == 0 ==> portfolio.active_view().len() == 0
                    && portfolio.closed_view().len() == 0
                    && strategy_collection.exit_strategies.len() == 0,
            decreases ohlcv.len() - n,
        {
            let o = &ohlcv[n];
            let ghost p0 = portfolio;
            let ghost s0 = strategy_collection;
            self.match_candle(&mut portfolio, &mut strategy_collection, o);
            let ghost p1 = portfolio;
            let ghost s1 = strategy_collection;
            assert(matched(p0, s0, ohlcv[n as int]@, p1, s1));
            proof {
                if p0.active_view().len() == 0 && p0.closed_view().len() == 0
                    && s0.exit_strategies.len() == 0 {
                    lemma_nothing_to_match(p0, s0, ohlcv[n as int]@, p1, s1);
                }
            }
            // run strategies only once per date, multiple ohlcv can have the same datetime
            // when there is more than one symbol
            let same_datetime = match previous_datetime {
                Some(datetime) => datetime == *o.datetime(),
                None => false,
            };
            assert(same_datetime == !new_time(ohlcv@, n as int));
            if !same_datetime {
                proof {
                    if models.len() == 0 {
                        lemma_nothing_to_place(p1, s1, ohlcv[n as int]@.datetime, self.generator());
                    }
                }
                match self.place_orders(&mut portfolio, &mut strategy_collection, o.datetime()) {
                    Ok(()) => {
                        proof {
                            if models.len() == 0 {
                                lemma_no_order(p1.active_view(), portfolio.active_view());
                                lemma_no_order(p1.closed_view(), portfolio.closed_view());
                            }
                        }
                        assert(placed(
                            p1,
                            s1,
                            ohlcv[n as int]@.datetime,
                            self.generator(),
                            portfolio,
                            strategy_collection,
                        ));
                    },
                    Err(e) => {
                        assert(not_placed(p1, s1, ohlcv[n as int]@.datetime, self.generator(), e));
                        return Err(e);
                    },
                }
            }
            proof {
                let candle = ohlcv@[n as int + 1 - 1];
                assert(matched(p0, s0, candle@, p1, s1));
                assert(replayed(models@, ohlcv@, self.generator(), n as int, p0, s0));
            }
            previous_datetime = Some(*o.datetime());
            n = n + 1;
        }
        Ok((portfolio, strategy_collection))
    }
}

/// Commits the drafts, each under the identifier it carries.
fn build_orders(drafts: &Vec<OrderBuilder>) -> (r: Vec<Order>)
    requires
        forall|k: int| 0 <= k < drafts.len() ==> (#[trigger] draft_views(drafts@)[k]).id is Some,
    ensures
        order_views(r@) == committed_orders(draft_views(drafts@)),
{
    let mut orders: Vec<Order> = Vec::new();
    let mut k: usize = 0;
    while k < drafts.len()
        invariant
            k <= drafts.len(),
            orders.len() == k,
            forall|j: int| 0 <= j < drafts.len() ==> (#[trigger] draft_views(drafts@)[j]).id is Some,
            forall|j: int|
                0 <= j < k ==> (#[trigger] orders[j])@ == drafts[j]@.committed(drafts[j]@.id->0),
        decreases drafts.len() - k,
    {
        assert(draft_views(drafts@)[k as int] == drafts[k as int]@);
        orders.push(drafts[k].clone().build().unwrap());
        k = k + 1;
    }
    assert(order_views(orders@) =~= committed_orders(draft_views(drafts@)));
    orders
}

} // verus!
