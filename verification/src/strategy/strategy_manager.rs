use vstd::prelude::*;
use vstd::hash_map::StringHashMap;
use crate::model::Model;
use crate::order::{
    GenerateOrderId, Order, OrderBuilder, OrderBuilderView, OrderId, OrderStatus, OrderStatusView,
    OrderView,
};
use crate::signal::SignalView;
use crate::strategy::{
    lemma_strategy_before_irreflexive, lemma_strategy_before_total,
    lemma_strategy_before_transitive, strategy_before, strategy_is_before, Strategy,
    StrategyError, StrategyId,
};
use crate::timestamp::Timestamp;

verus! {

/// What the manager knows of a strategy: whether it enters or exits, the
/// model it belongs to and, for an exit strategy, the entry order whose
/// position it closes.
pub enum StrategyType<'model, M: Model = Box<dyn Model>> {
    EntryStrategy(StrategyId, &'model M),
    ExitStrategy(StrategyId, &'model M, OrderId),
}

/// The mathematical value of a [`StrategyType`].
pub enum StrategyTypeView<'model, M: Model> {
    EntryStrategy(Seq<char>, &'model M),
    ExitStrategy(Seq<char>, &'model M, Seq<char>),
}

impl<'model, M: Model> View for StrategyType<'model, M> {
    type V = StrategyTypeView<'model, M>;

    open spec fn view(&self) -> StrategyTypeView<'model, M> {
        match self {
            StrategyType::EntryStrategy(strategy_id, model) => StrategyTypeView::EntryStrategy(
                strategy_id@,
                *model,
            ),
            StrategyType::ExitStrategy(strategy_id, model, order_id) => StrategyTypeView::ExitStrategy(
                strategy_id@,
                *model,
                order_id@,
            ),
        }
    }
}

/// One of the strategies has the identifier `id`.
pub open spec fn has_strategy(strategies: Seq<Strategy>, id: Seq<char>) -> bool {
    exists|k: int| 0 <= k < strategies.len() && (#[trigger] strategies[k]).id_text() == id
}

/// A place at which the strategy `id` stands.
pub open spec fn index_of_strategy(strategies: Seq<Strategy>, id: Seq<char>) -> int {
    choose|k: int| 0 <= k < strategies.len() && (#[trigger] strategies[k]).id_text() == id
}

/// No two of the strategies have the same identifier.
pub open spec fn distinct_strategies(strategies: Seq<Strategy>) -> bool {
    forall|i: int, j: int|
        0 <= i < j < strategies.len() ==> (#[trigger] strategies[i]).id_text() != (
        #[trigger] strategies[j]).id_text()
}

/// The strategies stand in ascending order of their identifiers.
pub open spec fn sorted_strategies(strategies: Seq<Strategy>) -> bool {
    forall|i: int, j: int|
        0 <= i < j < strategies.len() ==> strategy_before(
            (#[trigger] strategies[i]).id_text(),
            (#[trigger] strategies[j]).id_text(),
        )
}

/// `at` is the place of the identifier `id` among the strategies: those
/// before it have identifiers that come before `id`, those from it on have
/// not.
pub open spec fn is_place_of_strategy(strategies: Seq<Strategy>, id: Seq<char>, at: int) -> bool {
    &&& 0 <= at <= strategies.len()
    &&& forall|i: int| 0 <= i < at ==> strategy_before((#[trigger] strategies[i]).id_text(), id)
    &&& forall|i: int|
        at <= i < strategies.len() ==> !strategy_before((#[trigger] strategies[i]).id_text(), id)
}

/// The place of the identifier `id` among the strategies.
pub open spec fn place_of_strategy(strategies: Seq<Strategy>, id: Seq<char>) -> int {
    choose|at: int| is_place_of_strategy(strategies, id, at)
}

/// The strategies with `strategy` among them: in the place of the one that
/// has its identifier, or else at the place of its identifier.
pub open spec fn with_strategy(strategies: Seq<Strategy>, strategy: Strategy) -> Seq<Strategy> {
    if has_strategy(strategies, strategy.id_text()) {
        strategies.update(index_of_strategy(strategies, strategy.id_text()), strategy)
    } else {
        strategies.insert(place_of_strategy(strategies, strategy.id_text()), strategy)
    }
}

/// There is one place only for an identifier.
pub proof fn lemma_place_of_strategy_is_unique(
    strategies: Seq<Strategy>,
    id: Seq<char>,
    at: int,
    other: int,
)
    requires
        is_place_of_strategy(strategies, id, at),
        is_place_of_strategy(strategies, id, other),
    ensures
        at == other,
{
    if at < other {
        assert(strategy_before(strategies[at].id_text(), id));
    } else if other < at {
        assert(strategy_before(strategies[other].id_text(), id));
    }
}

/// Among sorted strategies every identifier has its place.
pub proof fn lemma_place_of_strategy_exists(strategies: Seq<Strategy>, id: Seq<char>)
    requires
        sorted_strategies(strategies),
    ensures
        is_place_of_strategy(strategies, id, place_of_strategy(strategies, id)),
    decreases strategies.len(),
{
    if strategies.len() == 0 {
        assert(is_place_of_strategy(strategies, id, 0));
    } else {
        let rest = strategies.drop_last();
        assert forall|i: int, j: int| 0 <= i < j < rest.len() implies strategy_before(
            (#[trigger] rest[i]).id_text(),
            (#[trigger] rest[j]).id_text(),
        ) by {
            assert(rest[i] == strategies[i] && rest[j] == strategies[j]);
        }
        lemma_place_of_strategy_exists(rest, id);
        let at = place_of_strategy(rest, id);
        let last = strategies.last();
        if strategy_before(last.id_text(), id) {
            assert forall|i: int| 0 <= i < strategies.len() implies strategy_before(
                (#[trigger] strategies[i]).id_text(),
                id,
            ) by {
                if i < strategies.len() - 1 {
                    lemma_strategy_before_transitive(strategies[i].id_text(), last.id_text(), id);
                }
            }
            assert(is_place_of_strategy(strategies, id, strategies.len() as int));
        } else {
            assert forall|i: int| 0 <= i < at implies strategy_before(
                (#[trigger] strategies[i]).id_text(),
                id,
            ) by {
                assert(rest[i] == strategies[i]);
            }
            assert forall|i: int| at <= i < strategies.len() implies !strategy_before(
                (#[trigger] strategies[i]).id_text(),
                id,
            ) by {
                if i < strategies.len() - 1 {
                    assert(rest[i] == strategies[i]);
                }
            }
            assert(is_place_of_strategy(strategies, id, at));
        }
    }
}

/// In a sorted sequence no identifier occurs twice.
pub proof fn lemma_sorted_strategies_are_distinct(strategies: Seq<Strategy>)
    requires
        sorted_strategies(strategies),
    ensures
        distinct_strategies(strategies),
{
    assert forall|i: int, j: int| 0 <= i < j < strategies.len() implies (
    #[trigger] strategies[i]).id_text() != (#[trigger] strategies[j]).id_text() by {
        lemma_strategy_before_irreflexive(strategies[i].id_text());
    }
}

/// A strategy that is put at the place of its identifier, which no other
/// strategy has, leaves the strategies sorted.
pub proof fn lemma_insert_keeps_sorted(strategies: Seq<Strategy>, strategy: Strategy, at: int)
    requires
        sorted_strategies(strategies),
        is_place_of_strategy(strategies, strategy.id_text(), at),
        !has_strategy(strategies, strategy.id_text()),
    ensures
        sorted_strategies(strategies.insert(at, strategy)),
{
    let after = strategies.insert(at, strategy);
    let id = strategy.id_text();
    assert forall|i: int, j: int| 0 <= i < j < after.len() implies strategy_before(
        (#[trigger] after[i]).id_text(),
        (#[trigger] after[j]).id_text(),
    ) by {
        if j < at {
            assert(after[i] == strategies[i] && after[j] == strategies[j]);
        } else if j == at {
            assert(after[i] == strategies[i]);
        } else if i < at {
            assert(after[i] == strategies[i] && after[j] == strategies[j - 1]);
        } else if i == at {
            assert(after[j] == strategies[j - 1]);
            lemma_strategy_before_total(id, strategies[j - 1].id_text());
        } else {
            assert(after[i] == strategies[i - 1] && after[j] == strategies[j - 1]);
        }
    }
}

/// The strategies with the first `n` of `added` among them, taken in one
/// after the other.
pub open spec fn with_strategies(strategies: Seq<Strategy>, added: Seq<Strategy>, n: int) -> Seq<
    Strategy,
>
    decreases n,
{
    if n <= 0 {
        strategies
    } else {
        with_strategy(with_strategies(strategies, added, n - 1), added[n - 1])
    }
}

/// The strategies without the one that has the identifier `id`.
pub open spec fn without_strategy(strategies: Seq<Strategy>, id: Seq<char>) -> Seq<Strategy> {
    if has_strategy(strategies, id) {
        strategies.remove(index_of_strategy(strategies, id))
    } else {
        strategies
    }
}

/// The descriptors with those of the first `n` of `added` among them, as
/// exit strategies of `model` for the entry order `entry_order_id`.
pub open spec fn with_exit_types<'model, M: Model>(
    types: Map<Seq<char>, StrategyTypeView<'model, M>>,
    added: Seq<Strategy>,
    model: &'model M,
    entry_order_id: Seq<char>,
    n: int,
) -> Map<Seq<char>, StrategyTypeView<'model, M>>
    decreases n,
{
    if n <= 0 {
        types
    } else {
        with_exit_types(types, added, model, entry_order_id, n - 1).insert(
            added[n - 1].id_text(),
            StrategyTypeView::ExitStrategy(added[n - 1].id_text(), model, entry_order_id),
        )
    }
}

/// Which strategy made which order, by the characters of the identifiers.
pub open spec fn binding_view(bindings: Map<Seq<char>, StrategyId>) -> Map<Seq<char>, Seq<char>> {
    bindings.map_values(|id: StrategyId| id@)
}

/// The descriptors, by the characters of the strategies' identifiers.
pub open spec fn type_views<'model, M: Model>(
    types: Map<Seq<char>, StrategyType<'model, M>>,
) -> Map<Seq<char>, StrategyTypeView<'model, M>> {
    types.map_values(|t: StrategyType<'model, M>| t@)
}

/// The manager's working set: the entry strategies in the order of the
/// models, the exit strategies in ascending order of their identifiers, the
/// strategy that made each order, and the descriptor of each strategy.
#[verifier::reject_recursive_types(M)]
pub struct StrategyCollection<'model, M: Model = Box<dyn Model>> {
    pub entry_strategies: Vec<Strategy>,
    pub exit_strategies: Vec<Strategy>,
    pub order_strategy: StringHashMap<StrategyId>,
    pub strategy_types: StringHashMap<StrategyType<'model, M>>,
}

/// A change to the exit strategies that the close of an order calls for.
pub enum StrategiesUpdate<'model, M: Model = Box<dyn Model>> {
    /// Take in the exit strategies that the model gave for the filled entry
    /// order of this identifier.
    AddExitStrategies(Vec<Strategy>, &'model M, OrderId),
    /// Retire the exit strategy of this identifier.
    RemoveExitStrategy(StrategyId),
}

impl<'model, M: Model> StrategyCollection<'model, M> {
    /// Which strategy made which order.
    pub open spec fn bindings(&self) -> Map<Seq<char>, Seq<char>> {
        binding_view(self.order_strategy@)
    }

    /// The descriptor of each strategy.
    pub open spec fn types(&self) -> Map<Seq<char>, StrategyTypeView<'model, M>> {
        type_views(self.strategy_types@)
    }

    /// The invariant of the working set: the exit strategies stand in
    /// ascending order of their identifiers, so that no two share one;
    /// every strategy has a descriptor, and so has every strategy that an
    /// order is bound to.
    pub open spec fn well_formed(&self) -> bool {
        &&& sorted_strategies(self.exit_strategies@)
        &&& distinct_strategies(self.exit_strategies@)
        &&& forall|i: int|
            0 <= i < self.entry_strategies.len() ==> self.types().contains_key(
                (#[trigger] self.entry_strategies[i]).id_text(),
            )
        &&& forall|i: int|
            0 <= i < self.exit_strategies.len() ==> self.types().contains_key(
                (#[trigger] self.exit_strategies[i]).id_text(),
            )
        &&& forall|order_id: Seq<char>| #[trigger]
            self.bindings().contains_key(order_id) ==> self.types().contains_key(
                self.bindings()[order_id],
            )
    }

    /// An empty working set.
    pub fn new() -> (r: StrategyCollection<'model, M>)
        ensures
            r.well_formed(),
            r.entry_strategies@ == Seq::<Strategy>::empty(),
            r.exit_strategies@ == Seq::<Strategy>::empty(),
            r.bindings() == Map::<Seq<char>, Seq<char>>::empty(),
            r.types() == Map::<Seq<char>, StrategyTypeView<'model, M>>::empty(),
    {
        let r = StrategyCollection {
            entry_strategies: Vec::new(),
            exit_strategies: Vec::new(),
            order_strategy: StringHashMap::new(),
            strategy_types: StringHashMap::new(),
        };
        assert(r.bindings() =~= Map::<Seq<char>, Seq<char>>::empty());
        assert(r.types() =~= Map::<Seq<char>, StrategyTypeView<'model, M>>::empty());
        r
    }

    /// Takes in the entry strategy of `model`, with its descriptor.
    pub fn add_entry_strategy(&mut self, strategy: Strategy, model: &'model M)
        requires
            old(self).well_formed(),
        ensures
            final(self).well_formed(),
            final(self).entry_strategies@ == old(self).entry_strategies@.push(strategy),
            final(self).exit_strategies@ == old(self).exit_strategies@,
            final(self).bindings() == old(self).bindings(),
            final(self).types() == old(self).types().insert(
                strategy.id_text(),
                StrategyTypeView::EntryStrategy(strategy.id_text(), model),
            ),
    {
        let ghost before = *self;
        self.strategy_types.insert(
            strategy.id().clone(),
            StrategyType::EntryStrategy(strategy.id().clone(), model),
        );
        self.entry_strategies.push(strategy);
        assert(self.types() =~= before.types().insert(
            strategy.id_text(),
            StrategyTypeView::EntryStrategy(strategy.id_text(), model),
        ));
        assert forall|order_id: Seq<char>| #[trigger]
            self.bindings().contains_key(order_id) implies self.types().contains_key(
            self.bindings()[order_id],
        ) by {
            assert(before.bindings().contains_key(order_id));
        }
        assert forall|i: int| 0 <= i < self.entry_strategies.len() implies self.types().contains_key(
            (#[trigger] self.entry_strategies[i]).id_text(),
        ) by {
            if i < before.entry_strategies.len() {
                assert(self.entry_strategies[i] == before.entry_strategies[i]);
            }
        }
        assert forall|i: int| 0 <= i < self.exit_strategies.len() implies self.types().contains_key(
            (#[trigger] self.exit_strategies[i]).id_text(),
        ) by {
            assert(self.exit_strategies[i] == before.exit_strategies[i]);
        }
    }

    /// Where the exit strategy `id` stands, if it is there.
    fn find_exit_strategy(&self, id: &StrategyId) -> (r: Option<usize>)
        ensures
            match r {
                Some(k) => k < self.exit_strategies.len() && self.exit_strategies[k as int].id_text()
                    == id@,
                None => !has_strategy(self.exit_strategies@, id@),
            },
    {
        let mut k: usize = 0;
        while k < self.exit_strategies.len()
            invariant
                k <= self.exit_strategies.len(),
                forall|j: int| 0 <= j < k ==> (#[trigger] self.exit_strategies[j]).id_text() != id@,
            decreases self.exit_strategies.len() - k,
        {
            if *self.exit_strategies[k].id() == *id {
                return Some(k);
            }
            k = k + 1;
        }
        None
    }

    /// Takes in one exit strategy of `model` for the entry order
    /// `entry_order_id`, with its descriptor.
    fn add_exit_strategy(&mut self, strategy: Strategy, model: &'model M, entry_order_id: &OrderId)
        requires
            old(self).well_formed(),
        ensures
            final(self).well_formed(),
            final(self).entry_strategies@ == old(self).entry_strategies@,
            final(self).exit_strategies@ == with_strategy(old(self).exit_strategies@, strategy),
            final(self).bindings() == old(self).bindings(),
            final(self).types() == old(self).types().insert(
                strategy.id_text(),
                StrategyTypeView::ExitStrategy(strategy.id_text(), model, entry_order_id@),
            ),
    {
        let ghost before = *self;
        self.strategy_types.insert(
            strategy.id().clone(),
            StrategyType::ExitStrategy(strategy.id().clone(), model, entry_order_id.clone()),
        );
        assert(self.types() =~= before.types().insert(
            strategy.id_text(),
            StrategyTypeView::ExitStrategy(strategy.id_text(), model, entry_order_id@),
        ));
        let ghost exits = before.exit_strategies@;
        let ghost id = strategy.id_text();
        let mut k: usize = 0;
        let mut searching = k < self.exit_strategies.len();
        while searching
            invariant
                k <= self.exit_strategies.len(),
                self.exit_strategies@ == exits,
                id == strategy.id_text(),
                searching ==> k < exits.len(),
                !searching ==> k == exits.len() || !strategy_before(exits[k as int].id_text(), id),
                forall|i: int| 0 <= i < k ==> strategy_before((#[trigger] exits[i]).id_text(), id),
            decreases exits.len() - k + (if searching { 1int } else { 0int }),
        {
            if strategy_is_before(self.exit_strategies[k].id().as_str(), strategy.id().as_str()) {
                k = k + 1;
                searching = k < self.exit_strategies.len();
            } else {
                searching = false;
            }
        }
        proof {
            assert forall|i: int| k <= i < exits.len() implies !strategy_before(
                (#[trigger] exits[i]).id_text(),
                id,
            ) by {
                if i > k && strategy_before(exits[i].id_text(), id) {
                    lemma_strategy_before_transitive(
                        exits[k as int].id_text(),
                        exits[i].id_text(),
                        id,
                    );
                }
            }
            assert(is_place_of_strategy(exits, id, k as int));
        }
        let mut found = false;
        if k < self.exit_strategies.len() {
            found = *self.exit_strategies[k].id() == *strategy.id();
        }
        if found {
            proof {
                let c = index_of_strategy(exits, id);
                if c < k {
                    assert(exits[c].id_text() != exits[k as int].id_text());
                } else if k < c {
                    assert(exits[k as int].id_text() != exits[c].id_text());
                }
            }
            self.exit_strategies[k] = strategy;
            assert forall|i: int, j: int| 0 <= i < j < self.exit_strategies.len() implies strategy_before(
                (#[trigger] self.exit_strategies[i]).id_text(),
                (#[trigger] self.exit_strategies[j]).id_text(),
            ) by {
                assert(self.exit_strategies[i].id_text() == exits[i].id_text());
                assert(self.exit_strategies[j].id_text() == exits[j].id_text());
            }
        } else {
            proof {
                assert forall|i: int| 0 <= i < exits.len() implies (#[trigger] exits[i]).id_text()
                    != id by {
                    lemma_strategy_before_irreflexive(id);
                    if i > k && exits[i].id_text() == id {
                        assert(strategy_before(exits[k as int].id_text(), exits[i].id_text()));
                    }
                }
                lemma_place_of_strategy_exists(exits, id);
                lemma_place_of_strategy_is_unique(
                    exits,
                    id,
                    k as int,
                    place_of_strategy(exits, id),
                );
                lemma_insert_keeps_sorted(exits, strategy, k as int);
            }
            self.exit_strategies.insert(k, strategy);
        }
        proof {
            lemma_sorted_strategies_are_distinct(self.exit_strategies@);
        }
        assert forall|order_id: Seq<char>| #[trigger]
            self.bindings().contains_key(order_id) implies self.types().contains_key(
            self.bindings()[order_id],
        ) by {
            assert(before.bindings().contains_key(order_id));
        }
        assert forall|i: int| 0 <= i < self.entry_strategies.len() implies self.types().contains_key(
            (#[trigger] self.entry_strategies[i]).id_text(),
        ) by {
            assert(self.entry_strategies[i] == before.entry_strategies[i]);
        }
        assert forall|i: int| 0 <= i < self.exit_strategies.len() implies self.types().contains_key(
            (#[trigger] self.exit_strategies[i]).id_text(),
        ) by {
            if found {
                if i != k {
                    assert(self.exit_strategies[i] == exits[i]);
                }
            } else {
                if i < k {
                    assert(self.exit_strategies[i] == exits[i]);
                } else if i > k {
                    assert(self.exit_strategies[i] == exits[i - 1]);
                }
            }
        }
    }

    /// Takes in the exit strategies that `model` gave for the filled entry
    /// order `entry_order_id`, each with its descriptor, one after the
    /// other. Each is put at the place of its identifier; one whose
    /// identifier is already among the exit strategies takes that one's
    /// place.
    pub fn add_exit_strategies(
        &mut self,
        new_strategies: Vec<Strategy>,
        model: &'model M,
        entry_order_id: &OrderId,
    )
        requires
            old(self).well_formed(),
        ensures
            final(self).well_formed(),
            final(self).entry_strategies@ == old(self).entry_strategies@,
            final(self).exit_strategies@ == with_strategies(
                old(self).exit_strategies@,
                new_strategies@,
                new_strategies.len() as int,
            ),
            final(self).bindings() == old(self).bindings(),
            final(self).types() == with_exit_types(
                old(self).types(),
                new_strategies@,
                model,
                entry_order_id@,
                new_strategies.len() as int,
            ),
    {
        let ghost added = new_strategies@;
        let ghost total = new_strategies.len() as int;
        let mut rest = new_strategies;
        let mut n: usize = 0;
        while rest.len() > 0
            invariant
                self.well_formed(),
                n + rest.len() == total,
                total == added.len(),
                total <= usize::MAX,
                rest@ == added.skip(n as int),
                self.entry_strategies@ == old(self).entry_strategies@,
                self.exit_strategies@ == with_strategies(
                    old(self).exit_strategies@,
                    added,
                    n as int,
                ),
                self.bindings() == old(self).bindings(),
                self.types() == with_exit_types(
                    old(self).types(),
                    added,
                    model,
                    entry_order_id@,
                    n as int,
                ),
            decreases rest.len(),
        {
            assert(rest[0] == added[n as int]);
            let strategy = rest.remove(0);
            assert(rest@ =~= added.skip(n as int + 1));
            self.add_exit_strategy(strategy, model, entry_order_id);
            n = n + 1;
        }
    }

    /// Retires the exit strategy `strategy_id`, and no other. Where no exit
    /// strategy has this identifier, nothing changes.
    pub fn remove_exit_strategy(&mut self, strategy_id: &StrategyId)
        requires
            old(self).well_formed(),
        ensures
            final(self).well_formed(),
            final(self).entry_strategies@ == old(self).entry_strategies@,
            final(self).exit_strategies@ == without_strategy(
                old(self).exit_strategies@,
                strategy_id@,
            ),
            final(self).bindings() == old(self).bindings(),
            final(self).types() == old(self).types(),
    {
        let ghost before = *self;
        match self.find_exit_strategy(strategy_id) {
            Some(k) => {
                proof {
                    let c = index_of_strategy(before.exit_strategies@, strategy_id@);
                    if c != k {
                        if c < k {
                            assert(before.exit_strategies@[c].id_text()
                                != before.exit_strategies@[k as int].id_text());
                        } else {
                            assert(before.exit_strategies@[k as int].id_text()
                                != before.exit_strategies@[c].id_text());
                        }
                    }
                }
                self.exit_strategies.remove(k);
                assert forall|order_id: Seq<char>| #[trigger]
                    self.bindings().contains_key(order_id) implies self.types().contains_key(
                    self.bindings()[order_id],
                ) by {
                    assert(before.bindings().contains_key(order_id));
                }
                assert forall|i: int|
                    0 <= i < self.entry_strategies.len() implies self.types().contains_key(
                    (#[trigger] self.entry_strategies[i]).id_text(),
                ) by {
                    assert(self.entry_strategies[i] == before.entry_strategies[i]);
                }
                assert forall|i: int|
                    0 <= i < self.exit_strategies.len() implies self.types().contains_key(
                    (#[trigger] self.exit_strategies[i]).id_text(),
                ) by {
                    let a = if i < k { i } else { i + 1 };
                    assert(self.exit_strategies[i] == before.exit_strategies[a]);
                }
                assert forall|i: int, j: int| 0 <= i < j < self.exit_strategies.len() implies (
                #[trigger] self.exit_strategies[i]).id_text() != (
                #[trigger] self.exit_strategies[j]).id_text() by {
                    let a = if i < k { i } else { i + 1 };
                    let b = if j < k { j } else { j + 1 };
                    assert(self.exit_strategies[i] == before.exit_strategies[a]);
                    assert(self.exit_strategies[j] == before.exit_strategies[b]);
                }
            },
            None => {},
        }
    }

    /// Applies a change to the exit strategies.
    pub fn apply(&mut self, update: StrategiesUpdate<'model, M>)
        requires
            old(self).well_formed(),
        ensures
            final(self).well_formed(),
            final(self).entry_strategies@ == old(self).entry_strategies@,
            final(self).bindings() == old(self).bindings(),
            match update {
                StrategiesUpdate::AddExitStrategies(new_strategies, model, entry_order_id) => {
                    &&& final(self).exit_strategies@ == with_strategies(
                        old(self).exit_strategies@,
                        new_strategies@,
                        new_strategies.len() as int,
                    )
                    &&& final(self).types() == with_exit_types(
                        old(self).types(),
                        new_strategies@,
                        model,
                        entry_order_id@,
                        new_strategies.len() as int,
                    )
                },
                StrategiesUpdate::RemoveExitStrategy(strategy_id) => {
                    &&& final(self).exit_strategies@ == without_strategy(
                        old(self).exit_strategies@,
                        strategy_id@,
                    )
                    &&& final(self).types() == old(self).types()
                },
            },
    {
        match update {
            StrategiesUpdate::AddExitStrategies(new_strategies, model, entry_order_id) => {
                self.add_exit_strategies(new_strategies, model, &entry_order_id);
            },
            StrategiesUpdate::RemoveExitStrategy(strategy_id) => {
                self.remove_exit_strategy(&strategy_id);
            },
        }
    }
}


/// Where a pass over the strategies stands: the drafts made so far, which
/// strategy made which order, and the failure that ended the pass, if one
/// did.
pub struct RunState {
    pub drafts: Seq<OrderBuilderView>,
    pub bindings: Map<Seq<char>, Seq<char>>,
    pub failure: Option<StrategyError>,
}

/// The pass after one more strategy has been run at `datetime`. Where the
/// strategy gives a draft, the draft is named by the generator, from the
/// strategy's identifier, the signal and the draft, and bound to the
/// strategy. Where it fails, the pass ends, and nothing changes after that.
pub open spec fn run_step<G: GenerateOrderId + ?Sized>(
    state: RunState,
    strategy: Strategy,
    datetime: Timestamp,
    generator: &G,
) -> RunState {
    if state.failure is Some {
        state
    } else {
        match strategy.outcome(datetime) {
            Ok(Some((signal, draft))) => {
                let id = generator.id_for(strategy.id_text(), signal, draft);
                RunState {
                    drafts: state.drafts.push(OrderBuilderView { id: Some(id), ..draft }),
                    bindings: state.bindings.insert(id, strategy.id_text()),
                    failure: None,
                }
            },
            Ok(None) => state,
            Err(e) => RunState { failure: Some(e), ..state },
        }
    }
}

/// The pass after the first `n` of the strategies have been run, one after
/// the other.
pub open spec fn run_among<G: GenerateOrderId + ?Sized>(
    state: RunState,
    strategies: Seq<Strategy>,
    datetime: Timestamp,
    generator: &G,
    n: int,
) -> RunState
    decreases n,
{
    if n <= 0 {
        state
    } else {
        run_step(
            run_among(state, strategies, datetime, generator, n - 1),
            strategies[n - 1],
            datetime,
            generator,
        )
    }
}

/// The pass over all strategies of a collection at `datetime`: the entry
/// strategies by their place, then the exit strategies as they stand, in
/// ascending order of identifier in a well-formed collection, starting
/// without drafts and from the bindings of the collection.
pub open spec fn run_all<'model, M: Model, G: GenerateOrderId + ?Sized>(
    collection: StrategyCollection<'model, M>,
    datetime: Timestamp,
    generator: &G,
) -> RunState {
    let start = RunState { drafts: Seq::empty(), bindings: collection.bindings(), failure: None };
    let entered = run_among(
        start,
        collection.entry_strategies@,
        datetime,
        generator,
        collection.entry_strategies.len() as int,
    );
    run_among(
        entered,
        collection.exit_strategies@,
        datetime,
        generator,
        collection.exit_strategies.len() as int,
    )
}

/// The mathematical values of a sequence of drafts.
pub open spec fn draft_views(drafts: Seq<OrderBuilder>) -> Seq<OrderBuilderView> {
    Seq::new(drafts.len(), |i: int| drafts[i]@)
}

/// A pass that has failed stays as it is.
pub proof fn lemma_failure_ends_run<G: GenerateOrderId + ?Sized>(
    state: RunState,
    strategies: Seq<Strategy>,
    datetime: Timestamp,
    generator: &G,
    m: int,
    n: int,
)
    requires
        0 <= m <= n,
        run_among(state, strategies, datetime, generator, m).failure is Some,
    ensures
        run_among(state, strategies, datetime, generator, n) == run_among(
            state,
            strategies,
            datetime,
            generator,
            m,
        ),
    decreases n,
{
    if n > m {
        lemma_failure_ends_run(state, strategies, datetime, generator, m, n - 1);
    }
}

/// What a pass leaves behind: the drafts that were there stay, each new
/// draft has an identifier that is bound, every binding that was there is
/// still there or has been taken over, and every new binding names one of
/// the strategies.
pub proof fn lemma_run_among<G: GenerateOrderId + ?Sized>(
    state: RunState,
    strategies: Seq<Strategy>,
    datetime: Timestamp,
    generator: &G,
    n: int,
)
    requires
        0 <= n <= strategies.len(),
    ensures
        ({
            let after = run_among(state, strategies, datetime, generator, n);
            &&& state.drafts.len() <= after.drafts.len()
            &&& forall|k: int|
                0 <= k < state.drafts.len() ==> #[trigger] after.drafts[k] == state.drafts[k]
            &&& forall|k: int|
                state.drafts.len() <= k < after.drafts.len() ==> (#[trigger] after.drafts[k]).id
                    is Some && after.bindings.contains_key(after.drafts[k].id->0)
            &&& forall|id: Seq<char>|
                state.bindings.contains_key(id) ==> #[trigger] after.bindings.contains_key(id)
            &&& forall|id: Seq<char>| #[trigger]
                after.bindings.contains_key(id) ==> (state.bindings.contains_key(id)
                    && after.bindings[id] == state.bindings[id]) || has_strategy(
                    strategies,
                    after.bindings[id],
                )
        }),
    decreases n,
{
    if n > 0 {
        lemma_run_among(state, strategies, datetime, generator, n - 1);
        let before = run_among(state, strategies, datetime, generator, n - 1);
        let after = run_among(state, strategies, datetime, generator, n);
        assert(has_strategy(strategies, strategies[n - 1].id_text()));
        assert forall|id: Seq<char>| #[trigger]
            after.bindings.contains_key(id) implies (state.bindings.contains_key(id)
            && after.bindings[id] == state.bindings[id]) || has_strategy(
            strategies,
            after.bindings[id],
        ) by {
            if before.bindings.contains_key(id) && after.bindings[id] == before.bindings[id] {
            }
        }
    }
}

/// The identifier of a draft rests on the strategy's identifier, the signal
/// and the draft that the policy makes of the signal, and on nothing else.
/// So a strategy that detects one signal in two passes, whatever else has
/// happened in between, is given one identifier for its order.
pub proof fn law_same_signal_same_identifier<G: GenerateOrderId + ?Sized>(
    first: RunState,
    second: RunState,
    a: Strategy,
    b: Strategy,
    at: Timestamp,
    again: Timestamp,
    generator: &G,
    signal: SignalView,
    draft: OrderBuilderView,
)
    requires
        first.failure is None,
        second.failure is None,
        a.id_text() == b.id_text(),
        a.outcome(at) == Ok::<Option<(SignalView, OrderBuilderView)>, StrategyError>(
            Some((signal, draft)),
        ),
        b.outcome(again) == a.outcome(at),
    ensures
        run_step(first, a, at, generator).drafts.last() == run_step(
            second,
            b,
            again,
            generator,
        ).drafts.last(),
        run_step(first, a, at, generator).drafts.last().id == Some(
            generator.id_for(a.id_text(), signal, draft),
        ),
{
}

/// Where the strategies that a model gives have identifiers of their own,
/// the exit strategies after they were taken in are exactly those that were
/// there and these, in ascending order of identifier.
pub proof fn law_spawned_strategies_appear(exits: Seq<Strategy>, added: Seq<Strategy>, n: int)
    requires
        0 <= n <= added.len(),
        sorted_strategies(exits),
        distinct_strategies(added),
        forall|i: int| 0 <= i < added.len() ==> !has_strategy(exits, (#[trigger] added[i]).id_text()),
    ensures
        sorted_strategies(with_strategies(exits, added, n)),
        with_strategies(exits, added, n).len() == exits.len() + n,
        forall|s: Strategy| #[trigger]
            with_strategies(exits, added, n).contains(s) <==> exits.contains(s) || added.take(
                n,
            ).contains(s),
    decreases n,
{
    let now = with_strategies(exits, added, n);
    if n == 0 {
        assert forall|s: Strategy| #[trigger] now.contains(s) <==> exits.contains(s) || added.take(
            0,
        ).contains(s) by {
            let none = added.take(0);
            if none.contains(s) {
                let k = choose|k: int| 0 <= k < none.len() && none[k] == s;
            }
        }
    } else {
        law_spawned_strategies_appear(exits, added, n - 1);
        let earlier = added.take(n - 1);
        let taken = added.take(n);
        let before = with_strategies(exits, added, n - 1);
        let next = added[n - 1];
        if has_strategy(before, next.id_text()) {
            let k = choose|k: int|
                0 <= k < before.len() && (#[trigger] before[k]).id_text() == next.id_text();
            assert(before.contains(before[k]));
            if exits.contains(before[k]) {
                let e = choose|e: int| 0 <= e < exits.len() && exits[e] == before[k];
                assert(exits[e].id_text() == next.id_text());
            } else {
                let a = choose|a: int| 0 <= a < earlier.len() && earlier[a] == before[k];
                assert(added[a].id_text() != added[n - 1].id_text());
            }
        }
        lemma_place_of_strategy_exists(before, next.id_text());
        let at = place_of_strategy(before, next.id_text());
        lemma_insert_keeps_sorted(before, next, at);
        assert(now == before.insert(at, next));
        lemma_insert_holds(before, at, next);
        assert(taken =~= earlier.push(next));
        lemma_insert_holds(earlier, n - 1, next);
        assert(earlier.insert(n - 1, next) =~= earlier.push(next));
        assert forall|s: Strategy| #[trigger] now.contains(s) <==> exits.contains(s)
            || taken.contains(s) by {
            assert(before.insert(at, next).contains(s) <==> before.contains(s) || s == next);
            assert(earlier.insert(n - 1, next).contains(s) <==> earlier.contains(s) || s == next);
            assert(before.contains(s) <==> exits.contains(s) || earlier.contains(s));
        }
    }
}

/// What a sequence of strategies holds after one was put in.
proof fn lemma_insert_holds(strategies: Seq<Strategy>, at: int, strategy: Strategy)
    requires
        0 <= at <= strategies.len(),
    ensures
        forall|s: Strategy| #[trigger]
            strategies.insert(at, strategy).contains(s) <==> strategies.contains(s) || s
                == strategy,
{
    let after = strategies.insert(at, strategy);
    assert forall|s: Strategy| #[trigger] after.contains(s) <==> strategies.contains(s) || s
        == strategy by {
        if after.contains(s) {
            let k = choose|k: int| 0 <= k < after.len() && after[k] == s;
            if k < at {
                assert(strategies[k] == s);
            } else if k > at {
                assert(strategies[k - 1] == s);
            }
        }
        if strategies.contains(s) {
            let k = choose|k: int| 0 <= k < strategies.len() && strategies[k] == s;
            if k < at {
                assert(after[k] == s);
            } else {
                assert(after[k + 1] == s);
            }
        }
        if s == strategy {
            assert(after[at] == s);
        }
    }
}

/// To retire an exit strategy takes exactly that strategy out, and leaves
/// every other one in its place.
pub proof fn law_retired_strategy_leaves_alone(exits: Seq<Strategy>, k: int)
    requires
        0 <= k < exits.len(),
        distinct_strategies(exits),
    ensures
        without_strategy(exits, exits[k].id_text()) == exits.remove(k),
{
    let c = index_of_strategy(exits, exits[k].id_text());
    if c < k {
        assert(exits[c].id_text() != exits[k].id_text());
    } else if k < c {
        assert(exits[k].id_text() != exits[c].id_text());
    }
}

/// The change that the close of an order calls for, before the model has
/// been asked.
pub enum PlannedUpdate<'model, M: Model> {
    /// The entry order was filled: the model is asked for the exit
    /// strategies, which are taken in for this entry order.
    Spawn(&'model M, Seq<char>),
    /// The order of an exit strategy was filled or cancelled: the strategy
    /// is retired.
    Retire(Seq<char>),
    Nothing,
}

/// The change that the order `order_id` calls for when it reaches `status`:
/// it goes by the descriptor of the strategy that made the order.
pub open spec fn planned_update<'model, M: Model>(
    types: Map<Seq<char>, StrategyTypeView<'model, M>>,
    bindings: Map<Seq<char>, Seq<char>>,
    order_id: Seq<char>,
    status: OrderStatusView,
) -> PlannedUpdate<'model, M> {
    match types[bindings[order_id]] {
        StrategyTypeView::EntryStrategy(_, model) => if status is Filled {
            PlannedUpdate::Spawn(model, order_id)
        } else {
            PlannedUpdate::Nothing
        },
        StrategyTypeView::ExitStrategy(_, _, _) => if status.is_terminal() {
            PlannedUpdate::Retire(bindings[order_id])
        } else {
            PlannedUpdate::Nothing
        },
    }
}

/// The kind of a change, without the strategies that the model gave.
pub open spec fn plan_view<'model, M: Model>(
    update: Option<StrategiesUpdate<'model, M>>,
) -> PlannedUpdate<'model, M> {
    match update {
        Some(StrategiesUpdate::AddExitStrategies(_, model, entry_order_id)) => PlannedUpdate::Spawn(
            model,
            entry_order_id@,
        ),
        Some(StrategiesUpdate::RemoveExitStrategy(strategy_id)) => PlannedUpdate::Retire(
            strategy_id@,
        ),
        None => PlannedUpdate::Nothing,
    }
}

/// The collection is one that the models start with: it holds one entry
/// strategy for each model, in the order of the models, each one that its
/// model may give and with a descriptor as an entry strategy, and it holds
/// no exit strategy and no binding. The descriptor of the `i`-th entry
/// strategy names the `i`-th model, unless a later one has its identifier.
pub open spec fn initialized<'model, M: Model>(
    models: Seq<M>,
    r: StrategyCollection<'model, M>,
) -> bool {
    &&& r.well_formed()
    &&& r.entry_strategies.len() == models.len()
    &&& r.exit_strategies@ == Seq::<Strategy>::empty()
    &&& r.bindings() == Map::<Seq<char>, Seq<char>>::empty()
    &&& forall|i: int|
        0 <= i < models.len() ==> models[i].enters_with(#[trigger] r.entry_strategies[i])
    &&& forall|id: Seq<char>| #[trigger]
        r.types().contains_key(id) ==> exists|i: int|
            0 <= i < models.len() && (#[trigger] r.entry_strategies[i]).id_text() == id
                && r.types()[id] == StrategyTypeView::EntryStrategy(id, &models[i])
    &&& distinct_strategies(r.entry_strategies@) ==> forall|i: int|
        0 <= i < models.len() ==> r.types()[(#[trigger] r.entry_strategies[i]).id_text()]
            == StrategyTypeView::EntryStrategy(r.entry_strategies[i].id_text(), &models[i])
}

/// The strategy lifecycle manager.
#[derive(Clone, Copy, Debug)]
pub struct StrategyManager;

impl StrategyManager {
    pub fn new() -> StrategyManager {
        StrategyManager {  }
    }

    /// Creates a strategy collection with the entry strategies of the
    /// models: each model is asked for its entry strategy, which is taken in
    /// with its descriptor.
    pub fn initialize_strategy_collection<'model, M: Model>(&self, models: &'model Vec<M>) -> (r:
        StrategyCollection<'model, M>)
        ensures
            initialized(models@, r),
    {
        let mut strategy_collection = StrategyCollection::new();
        let mut n: usize = 0;
        while n < models.len()
            invariant
                n <= models.len(),
                strategy_collection.well_formed(),
                strategy_collection.entry_strategies.len() == n,
                strategy_collection.exit_strategies@ == Seq::<Strategy>::empty(),
                strategy_collection.bindings() == Map::<Seq<char>, Seq<char>>::empty(),
                forall|i: int|
                    0 <= i < n ==> models[i].enters_with(
                        #[trigger] strategy_collection.entry_strategies[i],
                    ),
                forall|id: Seq<char>| #[trigger]
                    strategy_collection.types().contains_key(id) ==> exists|i: int|
                        0 <= i < n && (#[trigger] strategy_collection.entry_strategies[i]).id_text()
                            == id && strategy_collection.types()[id]
                            == StrategyTypeView::EntryStrategy(id, &models[i]),
            decreases models.len() - n,
        {
            let model = &models[n];
            let entry_strategy = model.entry_strategy();
            let ghost before = strategy_collection;
            strategy_collection.add_entry_strategy(entry_strategy, model);
            proof {
                assert forall|id: Seq<char>| #[trigger]
                    strategy_collection.types().contains_key(id) implies exists|i: int|
                    0 <= i < n + 1 && (#[trigger] strategy_collection.entry_strategies[i]).id_text()
                        == id && strategy_collection.types()[id]
                        == StrategyTypeView::EntryStrategy(id, &models[i]) by {
                    if id == entry_strategy.id_text() {
                        assert(strategy_collection.entry_strategies[n as int].id_text() == id);
                    } else {
                        assert(before.types().contains_key(id));
                        let i = choose|i: int|
                            0 <= i < n && (#[trigger] before.entry_strategies[i]).id_text() == id
                                && before.types()[id] == StrategyTypeView::EntryStrategy(
                                id,
                                &models[i],
                            );
                        assert(strategy_collection.entry_strategies[i]
                            == before.entry_strategies[i]);
                    }
                }
            }
            n = n + 1;
        }
        proof {
            let entries = strategy_collection.entry_strategies@;
            if distinct_strategies(entries) {
                assert forall|i: int| 0 <= i < models.len() implies strategy_collection.types()[(
                #[trigger] entries[i]).id_text()] == StrategyTypeView::EntryStrategy(
                    entries[i].id_text(),
                    &models[i],
                ) by {
                    let id = entries[i].id_text();
                    assert(strategy_collection.types().contains_key(id));
                    let j = choose|j: int|
                        0 <= j < models.len() && (
                        #[trigger] strategy_collection.entry_strategies[j]).id_text() == id
                            && strategy_collection.types()[id] == StrategyTypeView::EntryStrategy(
                            id,
                            &models[j],
                        );
                    if j < i {
                        assert(entries[j].id_text() != entries[i].id_text());
                    } else if i < j {
                        assert(entries[i].id_text() != entries[j].id_text());
                    }
                }
            }
        }
        strategy_collection
    }

    /// Runs all strategies of the collection at `datetime`: the entry
    /// strategies by their place, then the exit strategies in ascending
    /// order of their identifiers. Each draft that a strategy gives is named
    /// by the generator and bound to the strategy. The first failure ends
    /// the pass: the drafts are then dropped, the bindings made until then
    /// stay.
    pub fn run_strategies<'model, M: Model, G: GenerateOrderId + ?Sized>(
        &self,
        strategies: &mut StrategyCollection<'model, M>,
        datetime: &Timestamp,
        order_id_generator: &G,
    ) -> (r: Result<Vec<OrderBuilder>, StrategyError>)
        requires
            old(strategies).well_formed(),
        ensures
            ({
                let done = run_all(*old(strategies), *datetime, order_id_generator);
                &&& final(strategies).bindings() == done.bindings
                &&& match r {
                    Ok(drafts) => done.failure is None && draft_views(drafts@) == done.drafts,
                    Err(e) => done.failure == Some(e),
                }
            }),
            final(strategies).types() == old(strategies).types(),
            same_identifiers(
                final(strategies).entry_strategies@,
                old(strategies).entry_strategies@,
            ),
            same_identifiers(final(strategies).exit_strategies@, old(strategies).exit_strategies@),
            passed(
                final(strategies).entry_strategies@,
                old(strategies).entry_strategies@,
                *datetime,
                true,
            ),
            passed(
                final(strategies).exit_strategies@,
                old(strategies).exit_strategies@,
                *datetime,
                healthy(
                    old(strategies).entry_strategies@,
                    *datetime,
                    old(strategies).entry_strategies.len() as int,
                ),
            ),
            final(strategies).well_formed(),
            match r {
                Ok(drafts) => forall|k: int|
                    0 <= k < drafts.len() ==> (#[trigger] draft_views(drafts@)[k]).id is Some
                        && final(strategies).bindings().contains_key(
                        draft_views(drafts@)[k].id->0,
                    ),
                Err(_) => true,
            },
            forall|id: Seq<char>|
                old(strategies).bindings().contains_key(id) ==> #[trigger] final(strategies)
                    .bindings().contains_key(id),
    {
        let ghost start = RunState {
            drafts: Seq::empty(),
            bindings: strategies.bindings(),
            failure: None,
        };
        let ghost entries = strategies.entry_strategies@;
        let ghost exits = strategies.exit_strategies@;
        let ghost entered = run_among(
            start,
            entries,
            *datetime,
            order_id_generator,
            entries.len() as int,
        );
        let ghost done = run_among(entered, exits, *datetime, order_id_generator, exits.len() as int);
        proof {
            lemma_failure_of_run(
                start,
                entries,
                *datetime,
                order_id_generator,
                entries.len() as int,
            );
            lemma_run_among(start, entries, *datetime, order_id_generator, entries.len() as int);
            lemma_run_among(entered, exits, *datetime, order_id_generator, exits.len() as int);
        }
        let mut order_builders: Vec<OrderBuilder> = Vec::new();
        assert(draft_views(order_builders@) =~= start.drafts);
        let entry_pass = run_list(
            &mut strategies.entry_strategies,
            &mut strategies.order_strategy,
            &mut order_builders,
            datetime,
            order_id_generator,
            Ghost(start),
        );
        let r = match entry_pass {
            Err(e) => {
                proof {
                    lemma_failure_ends_run(
                        entered,
                        exits,
                        *datetime,
                        order_id_generator,
                        0,
                        exits.len() as int,
                    );
                }
                Err(e)
            },
            Ok(()) => {
                let exit_pass = run_list(
                    &mut strategies.exit_strategies,
                    &mut strategies.order_strategy,
                    &mut order_builders,
                    datetime,
                    order_id_generator,
                    Ghost(entered),
                );
                match exit_pass {
                    Err(e) => Err(e),
                    Ok(()) => Ok(order_builders),
                }
            },
        };
        proof {
            if old(strategies).well_formed() {
                let before = *old(strategies);
                let now = *strategies;
                assert forall|i: int, j: int| 0 <= i < j < now.exit_strategies.len() implies (
                #[trigger] now.exit_strategies[i]).id_text() != (
                #[trigger] now.exit_strategies[j]).id_text() by {
                    assert(before.exit_strategies[i].id_text()
                        != before.exit_strategies[j].id_text());
                }
                assert forall|i: int|
                    0 <= i < now.entry_strategies.len() implies now.types().contains_key(
                    (#[trigger] now.entry_strategies[i]).id_text(),
                ) by {
                    assert(before.types().contains_key(before.entry_strategies[i].id_text()));
                }
                assert forall|i: int|
                    0 <= i < now.exit_strategies.len() implies now.types().contains_key(
                    (#[trigger] now.exit_strategies[i]).id_text(),
                ) by {
                    assert(before.types().contains_key(before.exit_strategies[i].id_text()));
                }
                assert forall|order_id: Seq<char>| #[trigger]
                    now.bindings().contains_key(order_id) implies now.types().contains_key(
                    now.bindings()[order_id],
                ) by {
                    let name = done.bindings[order_id];
                    if entered.bindings.contains_key(order_id) && name
                        == entered.bindings[order_id] {
                        if start.bindings.contains_key(order_id) && name
                            == start.bindings[order_id] {
                            assert(before.bindings().contains_key(order_id));
                        } else {
                            let k = choose|k: int|
                                0 <= k < entries.len() && (#[trigger] entries[k]).id_text() == name;
                            assert(before.types().contains_key(
                                before.entry_strategies[k].id_text(),
                            ));
                        }
                    } else {
                        let k = choose|k: int|
                            0 <= k < exits.len() && (#[trigger] exits[k]).id_text() == name;
                        assert(before.types().contains_key(before.exit_strategies[k].id_text()));
                    }
                }
            }
        }
        r
    }
}

/// The two sequences hold strategies of the same identifiers and policies,
/// place by place.
pub open spec fn same_identifiers(now: Seq<Strategy>, before: Seq<Strategy>) -> bool {
    &&& now.len() == before.len()
    &&& forall|i: int|
        0 <= i < now.len() ==> (#[trigger] now[i]).id_text() == before[i].id_text() && now[i].policy()
            == before[i].policy()
}

/// None of the first `n` strategies fails at `datetime`.
pub open spec fn healthy(strategies: Seq<Strategy>, datetime: Timestamp, n: int) -> bool {
    forall|i: int| 0 <= i < n ==> !((#[trigger] strategies[i]).outcome(datetime) is Err)
}

/// The strategies `now` are what a pass at `datetime` makes of the
/// strategies `before`: where the pass comes to this list, each strategy
/// before which none fails has been run once, and each other one is as it
/// was. Where the pass does not come to the list, all are as they were.
pub open spec fn passed(
    now: Seq<Strategy>,
    before: Seq<Strategy>,
    datetime: Timestamp,
    reached: bool,
) -> bool {
    &&& now.len() == before.len()
    &&& forall|i: int|
        0 <= i < now.len() ==> if reached && healthy(before, datetime, i) {
            (#[trigger] now[i]).asked_once(before[i], datetime)
        } else {
            now[i] == before[i]
        }
}

/// A pass that starts without failure fails among the first `n` strategies
/// where one of them fails, and nowhere else.
pub proof fn lemma_failure_of_run<G: GenerateOrderId + ?Sized>(
    state: RunState,
    strategies: Seq<Strategy>,
    datetime: Timestamp,
    generator: &G,
    n: int,
)
    requires
        state.failure is None,
        0 <= n <= strategies.len(),
    ensures
        run_among(state, strategies, datetime, generator, n).failure is None <==> healthy(
            strategies,
            datetime,
            n,
        ),
    decreases n,
{
    if n > 0 {
        lemma_failure_of_run(state, strategies, datetime, generator, n - 1);
        if healthy(strategies, datetime, n) {
            assert(healthy(strategies, datetime, n - 1));
            assert(!(strategies[n - 1].outcome(datetime) is Err));
        } else if healthy(strategies, datetime, n - 1) {
            assert(strategies[n - 1].outcome(datetime) is Err);
        }
    }
}

/// Runs the strategies of one list, in their order, until one fails.
fn run_list<G: GenerateOrderId + ?Sized>(
    list: &mut Vec<Strategy>,
    bindings: &mut StringHashMap<StrategyId>,
    drafts: &mut Vec<OrderBuilder>,
    datetime: &Timestamp,
    generator: &G,
    Ghost(start): Ghost<RunState>,
) -> (r: Result<(), StrategyError>)
    requires
        start.failure is None,
        start.drafts == draft_views(old(drafts)@),
        start.bindings == binding_view(old(bindings)@),
    ensures
        ({
            let end = run_among(start, old(list)@, *datetime, generator, old(list).len() as int);
            &&& binding_view(final(bindings)@) == end.bindings
            &&& match r {
                Ok(()) => end.failure is None && draft_views(final(drafts)@) == end.drafts,
                Err(e) => end.failure == Some(e),
            }
        }),
        same_identifiers(final(list)@, old(list)@),
        passed(final(list)@, old(list)@, *datetime, true),
{
    let ghost all = list@;
    let mut i: usize = 0;
    while i < list.len()
        invariant
            i <= list.len(),
            list.len() == all.len(),
            all == old(list)@,
            forall|j: int| i <= j < list.len() ==> #[trigger] list[j] == all[j],
            forall|j: int|
                0 <= j < list.len() ==> (#[trigger] list[j]).id_text() == all[j].id_text()
                    && list[j].policy() == all[j].policy(),
            forall|j: int| 0 <= j < i ==> (#[trigger] list[j]).asked_once(all[j], *datetime),
            healthy(all, *datetime, i as int),
            run_among(start, all, *datetime, generator, i as int) == (RunState {
                drafts: draft_views(drafts@),
                bindings: binding_view(bindings@),
                failure: None,
            }),
        decreases list.len() - i,
    {
        let ghost before = run_among(start, all, *datetime, generator, i as int);
        let ghost shown = draft_views(drafts@);
        let ghost bound = bindings@;
        assert(list[i as int] == all[i as int]);
        match list[i].run(datetime) {
            Err(e) => {
                proof {
                    assert(run_among(start, all, *datetime, generator, i as int + 1).failure
                        == Some(e));
                    lemma_failure_ends_run(
                        start,
                        all,
                        *datetime,
                        generator,
                        i as int + 1,
                        all.len() as int,
                    );
                    assert forall|j: int| 0 <= j < list.len() implies if healthy(
                        all,
                        *datetime,
                        j,
                    ) {
                        (#[trigger] list[j]).asked_once(all[j], *datetime)
                    } else {
                        list[j] == all[j]
                    } by {
                        if j > i {
                            assert(all[i as int].outcome(*datetime) is Err);
                            assert(!healthy(all, *datetime, j));
                        }
                    }
                }
                return Err(e);
            },
            Ok(None) => {},
            Ok(Some((signal, order_builder))) => {
                let strategy_id = list[i].id().clone();
                let order_id = generator.get_id(strategy_id.clone(), &signal, &order_builder);
                let ghost draft = order_builder@;
                let order_builder = order_builder.set_id(order_id.clone());
                bindings.insert(order_id, strategy_id);
                drafts.push(order_builder);
                proof {
                    assert(draft_views(drafts@) =~= shown.push(
                        OrderBuilderView { id: Some(order_id@), ..draft },
                    ));
                    assert(binding_view(bindings@) =~= binding_view(bound).insert(
                        order_id@,
                        strategy_id@,
                    ));
                }
            },
        }
        i = i + 1;
    }
    proof {
        assert forall|j: int| 0 <= j < list.len() implies if healthy(all, *datetime, j) {
            (#[trigger] list[j]).asked_once(all[j], *datetime)
        } else {
            list[j] == all[j]
        } by {
            assert(healthy(all, *datetime, j));
        }
    }
    Ok(())
}


impl StrategyManager {
    /// Decides what the close of an order calls for, by the descriptor of
    /// the strategy that made the order, and asks the model for the exit
    /// strategies where an entry order was filled: the model is handed the
    /// closed order, and the strategies of the change are what it gave.
    pub fn plan_update<'model, M: Model>(
        &self,
        strategies: &StrategyCollection<'model, M>,
        closed_order: &Order,
        order_status: &OrderStatus,
    ) -> (r: Option<StrategiesUpdate<'model, M>>)
        requires
            strategies.well_formed(),
            strategies.bindings().contains_key(closed_order@.id),
        ensures
            plan_view(r) == planned_update(
                strategies.types(),
                strategies.bindings(),
                closed_order@.id,
                order_status@,
            ),
            r matches Some(StrategiesUpdate::AddExitStrategies(given, model, _))
                ==> model.exits_with(closed_order@, given@),
    {
        let strategy_id = strategies.order_strategy.get(closed_order.id().as_str()).unwrap();
        assert(strategy_id@ == strategies.bindings()[closed_order@.id]);
        assert(strategies.types().contains_key(strategy_id@));
        let strategy_type = strategies.strategy_types.get(strategy_id.as_str()).unwrap();
        assert(strategy_type@ == strategies.types()[strategy_id@]);
        match strategy_type {
            StrategyType::EntryStrategy(_, model) => match order_status {
                OrderStatus::Filled(_) => {
                    let new_strategies = model.exit_strategies(closed_order);
                    Some(
                        StrategiesUpdate::AddExitStrategies(
                            new_strategies,
                            *model,
                            closed_order.id().clone(),
                        ),
                    )
                },
                _ => None,
            },
            StrategyType::ExitStrategy(_, _, _) => match order_status {
                OrderStatus::Filled(_) => Some(
                    StrategiesUpdate::RemoveExitStrategy(strategy_id.clone()),
                ),
                OrderStatus::Cancelled(_) => Some(
                    StrategiesUpdate::RemoveExitStrategy(strategy_id.clone()),
                ),
                _ => None,
            },
        }
    }

    /// Adds the exit strategies where an entry order was filled, retires the
    /// exit strategy whose order was filled or cancelled.
    fn update_exit_strategies<'model, M: Model>(
        &self,
        strategies: &mut StrategyCollection<'model, M>,
        closed_order: &Order,
        order_status: &OrderStatus,
    ) -> (spawned: Ghost<Seq<Strategy>>)
        requires
            old(strategies).well_formed(),
            old(strategies).bindings().contains_key(closed_order@.id),
        ensures
            final(strategies).well_formed(),
            final(strategies).entry_strategies@ == old(strategies).entry_strategies@,
            final(strategies).bindings() == old(strategies).bindings(),
            match planned_update(
                old(strategies).types(),
                old(strategies).bindings(),
                closed_order@.id,
                order_status@,
            ) {
                PlannedUpdate::Spawn(model, entry_order_id) => {
                    &&& final(strategies).exit_strategies@ == with_strategies(
                        old(strategies).exit_strategies@,
                        spawned@,
                        spawned@.len() as int,
                    )
                    &&& final(strategies).types() == with_exit_types(
                        old(strategies).types(),
                        spawned@,
                        model,
                        entry_order_id,
                        spawned@.len() as int,
                    )
                },
                PlannedUpdate::Retire(strategy_id) => {
                    &&& final(strategies).exit_strategies@ == without_strategy(
                        old(strategies).exit_strategies@,
                        strategy_id,
                    )
                    &&& final(strategies).types() == old(strategies).types()
                },
                PlannedUpdate::Nothing => {
                    &&& final(strategies).exit_strategies@ == old(strategies).exit_strategies@
                    &&& final(strategies).types() == old(strategies).types()
                },
            },
            planned_update(
                old(strategies).types(),
                old(strategies).bindings(),
                closed_order@.id,
                order_status@,
            ) matches PlannedUpdate::Spawn(model, _) ==> model.exits_with(
                closed_order@,
                spawned@,
            ),
    {
        let strategy_updates = self.plan_update(strategies, closed_order, order_status);
        let ghost spawned = spawned_by(strategy_updates);
        if let Some(updates) = strategy_updates {
            strategies.apply(updates);
        }
        Ghost(spawned)
    }

    /// Updates the strategies when orders are closed: for each order that
    /// reached a terminal status, in the order given, the exit strategies of
    /// a filled entry order are taken in, and the exit strategy of a filled
    /// or cancelled exit order is retired. Other status changes are passed
    /// over. Each closed order has to be bound to the strategy that made it.
    /// The strategies that are taken in for a filled entry order are ones
    /// that the model of its strategy may give for that order.
    pub fn update_strategies<'model, M: Model>(
        &self,
        strategy_collection: &mut StrategyCollection<'model, M>,
        order_updates: &Vec<(&Order, OrderStatus)>,
    )
        requires
            old(strategy_collection).well_formed(),
            forall|p: int|
                0 <= p < order_updates.len() && (#[trigger] order_updates[p]).1@.is_terminal()
                    ==> old(strategy_collection).bindings().contains_key(order_updates[p].0@.id),
        ensures
            final(strategy_collection).well_formed(),
            final(strategy_collection).entry_strategies@ == old(strategy_collection).entry_strategies@,
            final(strategy_collection).bindings() == old(strategy_collection).bindings(),
            exists|spawned: Seq<Seq<Strategy>>|
                spawned.len() == order_updates.len() && final(strategy_collection).lifecycle()
                    == #[trigger] lifecycle_among(
                    old(strategy_collection).lifecycle(),
                    old(strategy_collection).bindings(),
                    closing_views(order_updates@),
                    spawned,
                    order_updates.len() as int,
                ) && given_by_models(
                    old(strategy_collection).lifecycle(),
                    old(strategy_collection).bindings(),
                    closed_views(order_updates@),
                    closing_views(order_updates@),
                    spawned,
                    order_updates.len() as int,
                ),
            forall|id: Seq<char>|
                old(strategy_collection).types().contains_key(id) ==> #[trigger] final(
                    strategy_collection).types().contains_key(id),
            forall|id: Seq<char>| #[trigger]
                final(strategy_collection).types().contains_key(id) ==> kept_or_spawned(
                    old(strategy_collection).types(),
                    final(strategy_collection).types(),
                    closing_views(order_updates@),
                    order_updates.len() as int,
                    id,
                ),
    {
        let ghost start = strategy_collection.lifecycle();
        let ghost bindings = strategy_collection.bindings();
        let ghost mut given: Seq<Seq<Strategy>> = Seq::empty();
        let mut p: usize = 0;
        while p < order_updates.len()
            invariant
                p <= order_updates.len(),
                strategy_collection.well_formed(),
                strategy_collection.entry_strategies@ == old(strategy_collection).entry_strategies@,
                strategy_collection.bindings() == old(strategy_collection).bindings(),
                start == old(strategy_collection).lifecycle(),
                bindings == old(strategy_collection).bindings(),
                given.len() == p,
                strategy_collection.lifecycle() == lifecycle_among(
                    start,
                    bindings,
                    closing_views(order_updates@),
                    given,
                    p as int,
                ),
                given_by_models(
                    start,
                    bindings,
                    closed_views(order_updates@),
                    closing_views(order_updates@),
                    given,
                    p as int,
                ),
                forall|p: int|
                    0 <= p < order_updates.len() && (#[trigger] order_updates[p]).1@.is_terminal()
                        ==> old(strategy_collection).bindings().contains_key(
                        order_updates[p].0@.id,
                    ),
                forall|id: Seq<char>|
                    old(strategy_collection).types().contains_key(id)
                        ==> #[trigger] strategy_collection.types().contains_key(id),
                forall|id: Seq<char>| #[trigger]
                    strategy_collection.types().contains_key(id) ==> kept_or_spawned(
                        old(strategy_collection).types(),
                        strategy_collection.types(),
                        closing_views(order_updates@),
                        p as int,
                        id,
                    ),
            decreases order_updates.len() - p,
        {
            let update = &order_updates[p];
            let ghost before = *strategy_collection;
            let ghost so_far = given;
            if update.1.is_terminal() {
                let Ghost(spawned) = self.update_exit_strategies(
                    strategy_collection,
                    update.0,
                    &update.1,
                );
                proof {
                    given = so_far.push(spawned);
                    lemma_exit_types_keep_keys(
                        before.types(),
                        spawned,
                        spawned.len() as int,
                        strategy_collection.types(),
                        update.0@.id,
                        update.1@,
                        before.bindings(),
                    );
                    assert(order_updates@[p as int].1@.is_terminal());
                    lemma_kept_or_spawned_step(
                        old(strategy_collection).types(),
                        before.types(),
                        strategy_collection.types(),
                        spawned,
                        before.bindings(),
                        closing_views(order_updates@),
                        p as int,
                    );
                }
            } else {
                proof {
                    given = so_far.push(Seq::empty());
                    assert forall|id: Seq<char>| #[trigger]
                        strategy_collection.types().contains_key(id) implies kept_or_spawned(
                        old(strategy_collection).types(),
                        strategy_collection.types(),
                        closing_views(order_updates@),
                        p as int + 1,
                        id,
                    ) by {
                        lemma_kept_or_spawned_grows(
                            old(strategy_collection).types(),
                            strategy_collection.types(),
                            closing_views(order_updates@),
                            p as int,
                            id,
                        );
                    }
                }
            }
            proof {
                let changes = closing_views(order_updates@);
                lemma_lifecycle_among_reads_a_prefix(start, bindings, changes, so_far, given, p as int);
                assert forall|q: int|
                    0 <= q < p + 1 && (#[trigger] changes[q]).1.is_terminal() implies match planned_update(
                    lifecycle_among(start, bindings, changes, given, q).types,
                    bindings,
                    changes[q].0,
                    changes[q].1,
                ) {
                    PlannedUpdate::Spawn(model, _) => model.exits_with(
                        closed_views(order_updates@)[q],
                        given[q],
                    ),
                    _ => true,
                } by {
                    lemma_lifecycle_among_reads_a_prefix(start, bindings, changes, so_far, given, q);
                    if q < p {
                        assert(given[q] == so_far[q]);
                    }
                }
            }
            p = p + 1;
        }
    }
}

/// The exit strategies and the descriptors of a collection: what the close
/// of orders changes.
pub struct Lifecycle<'model, M: Model> {
    pub exit_strategies: Seq<Strategy>,
    pub types: Map<Seq<char>, StrategyTypeView<'model, M>>,
}

impl<'model, M: Model> StrategyCollection<'model, M> {
    /// The exit strategies and the descriptors.
    pub open spec fn lifecycle(&self) -> Lifecycle<'model, M> {
        Lifecycle { exit_strategies: self.exit_strategies@, types: self.types() }
    }
}

/// The exit strategies and descriptors after the order `order_id` reached
/// `status`, where the model, if it is asked, gives the strategies
/// `spawned`.
pub open spec fn lifecycle_step<'model, M: Model>(
    state: Lifecycle<'model, M>,
    bindings: Map<Seq<char>, Seq<char>>,
    order_id: Seq<char>,
    status: OrderStatusView,
    spawned: Seq<Strategy>,
) -> Lifecycle<'model, M> {
    match planned_update(state.types, bindings, order_id, status) {
        PlannedUpdate::Spawn(model, entry_order_id) => Lifecycle {
            exit_strategies: with_strategies(
                state.exit_strategies,
                spawned,
                spawned.len() as int,
            ),
            types: with_exit_types(
                state.types,
                spawned,
                model,
                entry_order_id,
                spawned.len() as int,
            ),
        },
        PlannedUpdate::Retire(strategy_id) => Lifecycle {
            exit_strategies: without_strategy(state.exit_strategies, strategy_id),
            types: state.types,
        },
        PlannedUpdate::Nothing => state,
    }
}

/// The closed orders, as they are handed to the models.
pub open spec fn closed_views(order_updates: Seq<(&Order, OrderStatus)>) -> Seq<OrderView> {
    Seq::new(order_updates.len(), |i: int| order_updates[i].0@)
}

/// The identifier and the new status of each closed order.
pub open spec fn closing_views(order_updates: Seq<(&Order, OrderStatus)>) -> Seq<
    (Seq<char>, OrderStatusView),
> {
    Seq::new(order_updates.len(), |i: int| (order_updates[i].0@.id, order_updates[i].1@))
}

/// The exit strategies and descriptors after the first `n` status changes,
/// taken one after the other, where the model that is asked at the `i`-th
/// change gives the strategies `spawned[i]`. A change to a status that is
/// not terminal changes nothing.
pub open spec fn lifecycle_among<'model, M: Model>(
    state: Lifecycle<'model, M>,
    bindings: Map<Seq<char>, Seq<char>>,
    changes: Seq<(Seq<char>, OrderStatusView)>,
    spawned: Seq<Seq<Strategy>>,
    n: int,
) -> Lifecycle<'model, M>
    decreases n,
{
    if n <= 0 {
        state
    } else {
        let before = lifecycle_among(state, bindings, changes, spawned, n - 1);
        if changes[n - 1].1.is_terminal() {
            lifecycle_step(before, bindings, changes[n - 1].0, changes[n - 1].1, spawned[n - 1])
        } else {
            before
        }
    }
}

/// Each list of strategies comes from the model: where the `p`-th of the
/// first `n` status changes asks a model for exit strategies, the model is
/// handed the order `orders[p]`, and `spawned[p]` is a list that this model
/// may give for it.
pub open spec fn given_by_models<'model, M: Model>(
    state: Lifecycle<'model, M>,
    bindings: Map<Seq<char>, Seq<char>>,
    orders: Seq<OrderView>,
    changes: Seq<(Seq<char>, OrderStatusView)>,
    spawned: Seq<Seq<Strategy>>,
    n: int,
) -> bool {
    forall|p: int|
        0 <= p < n && (#[trigger] changes[p]).1.is_terminal() ==> match planned_update(
            lifecycle_among(state, bindings, changes, spawned, p).types,
            bindings,
            changes[p].0,
            changes[p].1,
        ) {
            PlannedUpdate::Spawn(model, _) => model.exits_with(orders[p], spawned[p]),
            _ => true,
        }
}

/// The first `n` closed orders read the first `n` lists of strategies
/// only.
proof fn lemma_lifecycle_among_reads_a_prefix<'model, M: Model>(
    state: Lifecycle<'model, M>,
    bindings: Map<Seq<char>, Seq<char>>,
    order_updates: Seq<(Seq<char>, OrderStatusView)>,
    spawned: Seq<Seq<Strategy>>,
    longer: Seq<Seq<Strategy>>,
    n: int,
)
    requires
        0 <= n <= spawned.len() <= longer.len(),
        forall|i: int| 0 <= i < spawned.len() ==> #[trigger] longer[i] == spawned[i],
    ensures
        lifecycle_among(state, bindings, order_updates, longer, n) == lifecycle_among(
            state,
            bindings,
            order_updates,
            spawned,
            n,
        ),
    decreases n,
{
    if n > 0 {
        lemma_lifecycle_among_reads_a_prefix(state, bindings, order_updates, spawned, longer, n - 1);
    }
}

/// The entry order for which a strategy exits, where its descriptor is that
/// of an exit strategy.
pub open spec fn entry_of<'model, M: Model>(descriptor: StrategyTypeView<'model, M>) -> Option<
    Seq<char>,
> {
    match descriptor {
        StrategyTypeView::ExitStrategy(_, _, entry_order_id) => Some(entry_order_id),
        StrategyTypeView::EntryStrategy(_, _) => None,
    }
}

/// The descriptor of the strategy `id` is the one that was there, or it is
/// the descriptor of an exit strategy for one of the first `n` closed
/// orders, which was filled.
pub open spec fn kept_or_spawned<'model, M: Model>(
    before: Map<Seq<char>, StrategyTypeView<'model, M>>,
    after: Map<Seq<char>, StrategyTypeView<'model, M>>,
    changes: Seq<(Seq<char>, OrderStatusView)>,
    n: int,
    id: Seq<char>,
) -> bool {
    ||| before.contains_key(id) && after[id] == before[id]
    ||| exists|p: int|
        0 <= p < n && (#[trigger] changes[p]).1 is Filled && entry_of(after[id]) == Some(
            changes[p].0,
        )
}

proof fn lemma_kept_or_spawned_grows<'model, M: Model>(
    before: Map<Seq<char>, StrategyTypeView<'model, M>>,
    after: Map<Seq<char>, StrategyTypeView<'model, M>>,
    changes: Seq<(Seq<char>, OrderStatusView)>,
    n: int,
    id: Seq<char>,
)
    requires
        kept_or_spawned(before, after, changes, n, id),
    ensures
        kept_or_spawned(before, after, changes, n + 1, id),
{
    if !(before.contains_key(id) && after[id] == before[id]) {
        let p = choose|p: int|
            0 <= p < n && (#[trigger] changes[p]).1 is Filled && entry_of(after[id]) == Some(
                changes[p].0,
            );
        assert(0 <= p < n + 1 && changes[p].1 is Filled);
    }
}

/// What the descriptors hold after exit strategies were taken in: each is
/// the one that was there, or the descriptor of an exit strategy of the
/// model for the entry order.
proof fn lemma_with_exit_types_values<'model, M: Model>(
    types: Map<Seq<char>, StrategyTypeView<'model, M>>,
    added: Seq<Strategy>,
    model: &'model M,
    entry_order_id: Seq<char>,
    n: int,
)
    requires
        0 <= n <= added.len(),
    ensures
        forall|id: Seq<char>| #[trigger]
            with_exit_types(types, added, model, entry_order_id, n).contains_key(id) ==> (
            types.contains_key(id) && with_exit_types(types, added, model, entry_order_id, n)[id]
                == types[id]) || with_exit_types(types, added, model, entry_order_id, n)[id]
                == StrategyTypeView::ExitStrategy(id, model, entry_order_id),
    decreases n,
{
    if n > 0 {
        lemma_with_exit_types_values(types, added, model, entry_order_id, n - 1);
        let before = with_exit_types(types, added, model, entry_order_id, n - 1);
        let after = with_exit_types(types, added, model, entry_order_id, n);
        assert forall|id: Seq<char>| #[trigger] after.contains_key(id) implies (types.contains_key(
            id,
        ) && after[id] == types[id]) || after[id] == StrategyTypeView::ExitStrategy(
            id,
            model,
            entry_order_id,
        ) by {
            if id != added[n - 1].id_text() {
                assert(before.contains_key(id));
            }
        }
    }
}

/// One more closed order keeps every descriptor as it was, or as the
/// descriptor of an exit strategy for a filled order.
proof fn lemma_kept_or_spawned_step<'model, M: Model>(
    first: Map<Seq<char>, StrategyTypeView<'model, M>>,
    before: Map<Seq<char>, StrategyTypeView<'model, M>>,
    after: Map<Seq<char>, StrategyTypeView<'model, M>>,
    spawned: Seq<Strategy>,
    bindings: Map<Seq<char>, Seq<char>>,
    changes: Seq<(Seq<char>, OrderStatusView)>,
    p: int,
)
    requires
        0 <= p < changes.len(),
        forall|id: Seq<char>| #[trigger]
            before.contains_key(id) ==> kept_or_spawned(first, before, changes, p, id),
        match planned_update(before, bindings, changes[p].0, changes[p].1) {
            PlannedUpdate::Spawn(model, entry_order_id) => after == with_exit_types(
                before,
                spawned,
                model,
                entry_order_id,
                spawned.len() as int,
            ),
            _ => after == before,
        },
    ensures
        forall|id: Seq<char>| #[trigger]
            after.contains_key(id) ==> kept_or_spawned(first, after, changes, p + 1, id),
{
    assert forall|id: Seq<char>| #[trigger] after.contains_key(id) implies kept_or_spawned(
        first,
        after,
        changes,
        p + 1,
        id,
    ) by {
        match planned_update(before, bindings, changes[p].0, changes[p].1) {
            PlannedUpdate::Spawn(model, entry_order_id) => {
                lemma_with_exit_types_values(
                    before,
                    spawned,
                    model,
                    entry_order_id,
                    spawned.len() as int,
                );
                if before.contains_key(id) && after[id] == before[id] {
                    lemma_kept_or_spawned_grows(first, before, changes, p, id);
                    lemma_kept_or_spawned_same(first, before, after, changes, p + 1, id);
                } else {
                    assert(changes[p].1 is Filled);
                    assert(after[id] == StrategyTypeView::ExitStrategy(id, model, entry_order_id));
                    assert(entry_order_id == changes[p].0);
                }
            },
            _ => {
                lemma_kept_or_spawned_grows(first, before, changes, p, id);
            },
        }
    }
}

proof fn lemma_kept_or_spawned_same<'model, M: Model>(
    first: Map<Seq<char>, StrategyTypeView<'model, M>>,
    before: Map<Seq<char>, StrategyTypeView<'model, M>>,
    after: Map<Seq<char>, StrategyTypeView<'model, M>>,
    changes: Seq<(Seq<char>, OrderStatusView)>,
    n: int,
    id: Seq<char>,
)
    requires
        kept_or_spawned(first, before, changes, n, id),
        after[id] == before[id],
    ensures
        kept_or_spawned(first, after, changes, n, id),
{
    if !(first.contains_key(id) && before[id] == first[id]) {
        let p = choose|p: int|
            0 <= p < n && (#[trigger] changes[p]).1 is Filled && entry_of(before[id]) == Some(
                changes[p].0,
            );
        assert(changes[p].1 is Filled);
    }
}

/// The exit strategies that a change brings.
pub open spec fn spawned_by<'model, M: Model>(
    update: Option<StrategiesUpdate<'model, M>>,
) -> Seq<Strategy> {
    match update {
        Some(StrategiesUpdate::AddExitStrategies(new_strategies, _, _)) => new_strategies@,
        _ => Seq::empty(),
    }
}

/// The descriptors that were there are still there after exit strategies
/// were taken in.
proof fn lemma_with_exit_types_keys<'model, M: Model>(
    types: Map<Seq<char>, StrategyTypeView<'model, M>>,
    added: Seq<Strategy>,
    model: &'model M,
    entry_order_id: Seq<char>,
    n: int,
)
    requires
        0 <= n <= added.len(),
    ensures
        forall|id: Seq<char>|
            types.contains_key(id) ==> #[trigger] with_exit_types(
                types,
                added,
                model,
                entry_order_id,
                n,
            ).contains_key(id),
    decreases n,
{
    if n > 0 {
        lemma_with_exit_types_keys(types, added, model, entry_order_id, n - 1);
        let before = with_exit_types(types, added, model, entry_order_id, n - 1);
        assert forall|id: Seq<char>| types.contains_key(id) implies #[trigger] with_exit_types(
            types,
            added,
            model,
            entry_order_id,
            n,
        ).contains_key(id) by {
            assert(before.contains_key(id));
        }
    }
}

/// Whatever the close of an order called for, the descriptors that were
/// there are still there.
proof fn lemma_exit_types_keep_keys<'model, M: Model>(
    types: Map<Seq<char>, StrategyTypeView<'model, M>>,
    spawned: Seq<Strategy>,
    n: int,
    after: Map<Seq<char>, StrategyTypeView<'model, M>>,
    order_id: Seq<char>,
    status: OrderStatusView,
    bindings: Map<Seq<char>, Seq<char>>,
)
    requires
        n == spawned.len(),
        match planned_update(types, bindings, order_id, status) {
            PlannedUpdate::Spawn(model, entry_order_id) => after == with_exit_types(
                types,
                spawned,
                model,
                entry_order_id,
                n,
            ),
            _ => after == types,
        },
    ensures
        forall|id: Seq<char>| types.contains_key(id) ==> #[trigger] after.contains_key(id),
{
    match planned_update(types, bindings, order_id, status) {
        PlannedUpdate::Spawn(model, entry_order_id) => {
            lemma_with_exit_types_keys(types, spawned, model, entry_order_id, n);
        },
        _ => {},
    }
}

} // verus!
