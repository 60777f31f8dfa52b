use vstd::prelude::*;
use crate::order::{
    distinct_ids, id_before, id_is_before, lemma_id_before_irreflexive, lemma_id_before_total,
    lemma_id_before_transitive, order_views, update_views, Order, OrderId, OrderStatus,
    OrderStatusView, OrderView,
};

verus! {

/// The orders stand in ascending order of their identifiers.
pub open spec fn sorted_by_id(orders: Seq<OrderView>) -> bool {
    forall|i: int, j: int|
        0 <= i < j < orders.len() ==> id_before((#[trigger] orders[i]).id, (#[trigger] orders[j]).id)
}

/// One of the orders has the identifier `id`.
pub open spec fn has_id(orders: Seq<OrderView>, id: Seq<char>) -> bool {
    exists|i: int| 0 <= i < orders.len() && (#[trigger] orders[i]).id == id
}

/// The order among `orders` that has the identifier `id`.
pub open spec fn order_with_id(orders: Seq<OrderView>, id: Seq<char>) -> OrderView {
    orders[choose|i: int| 0 <= i < orders.len() && (#[trigger] orders[i]).id == id]
}

/// In a sorted sequence the order of an identifier is the one that stands
/// there under it.
pub proof fn lemma_order_with_id(orders: Seq<OrderView>, at: int)
    requires
        sorted_by_id(orders),
        0 <= at < orders.len(),
    ensures
        order_with_id(orders, orders[at].id) == orders[at],
{
    let found = choose|i: int|
        0 <= i < orders.len() && (#[trigger] orders[i]).id == orders[at].id;
    if found < at {
        lemma_id_before_irreflexive(orders[at].id);
        assert(id_before(orders[found].id, orders[at].id));
    } else if at < found {
        lemma_id_before_irreflexive(orders[at].id);
        assert(id_before(orders[at].id, orders[found].id));
    }
}

/// Two sorted sequences that hold the same orders are the same sequence.
pub proof fn lemma_sorted_orders_are_determined(a: Seq<OrderView>, b: Seq<OrderView>)
    requires
        sorted_by_id(a),
        sorted_by_id(b),
        forall|o: OrderView| a.contains(o) <==> b.contains(o),
    ensures
        a == b,
    decreases a.len(),
{
    if a.len() == 0 {
        if b.len() > 0 {
            assert(b.contains(b[0]));
            assert(a.contains(b[0]));
        }
        assert(a =~= b);
    } else {
        let last = a.last();
        assert(a.contains(last));
        assert(b.contains(last));
        let k = choose|k: int| 0 <= k < b.len() && b[k] == last;
        if k < b.len() - 1 {
            let other = b.last();
            assert(b.contains(other));
            assert(a.contains(other));
            let i = choose|i: int| 0 <= i < a.len() && a[i] == other;
            assert(id_before(b[k].id, b[b.len() - 1].id));
            if i < a.len() - 1 {
                assert(id_before(a[i].id, a[a.len() - 1].id));
                lemma_id_before_transitive(last.id, other.id, last.id);
            }
            lemma_id_before_irreflexive(last.id);
        }
        let rest_a = a.drop_last();
        let rest_b = b.drop_last();
        assert forall|i: int, j: int| 0 <= i < j < rest_a.len() implies id_before(
            (#[trigger] rest_a[i]).id,
            (#[trigger] rest_a[j]).id,
        ) by {
            assert(rest_a[i] == a[i] && rest_a[j] == a[j]);
        }
        assert forall|i: int, j: int| 0 <= i < j < rest_b.len() implies id_before(
            (#[trigger] rest_b[i]).id,
            (#[trigger] rest_b[j]).id,
        ) by {
            assert(rest_b[i] == b[i] && rest_b[j] == b[j]);
        }
        assert forall|o: OrderView| rest_a.contains(o) <==> rest_b.contains(o) by {
            lemma_id_before_irreflexive(last.id);
            if rest_a.contains(o) {
                let i = choose|i: int| 0 <= i < rest_a.len() && rest_a[i] == o;
                assert(a[i] == o);
                assert(a.contains(o));
                assert(id_before(a[i].id, a[a.len() - 1].id));
                let j = choose|j: int| 0 <= j < b.len() && b[j] == o;
                assert(j < b.len() - 1);
                assert(rest_b[j] == o);
            }
            if rest_b.contains(o) {
                let j = choose|j: int| 0 <= j < rest_b.len() && rest_b[j] == o;
                assert(b[j] == o);
                assert(b.contains(o));
                assert(id_before(b[j].id, b[b.len() - 1].id));
                let i = choose|i: int| 0 <= i < a.len() && a[i] == o;
                assert(i < a.len() - 1);
                assert(rest_a[i] == o);
            }
        }
        lemma_sorted_orders_are_determined(rest_a, rest_b);
        assert(a =~= rest_a.push(last));
        assert(b =~= rest_b.push(last));
    }
}

/// One of the first `n` status changes is terminal and names the order `id`.
pub open spec fn closes_among(
    updates: Seq<(Seq<char>, OrderStatusView)>,
    n: int,
    id: Seq<char>,
) -> bool {
    exists|p: int| 0 <= p < n && (#[trigger] updates[p]).0 == id && updates[p].1.is_terminal()
}

/// `closed` is one of the orders `active`, in the terminal status that one
/// of the first `n` status changes gives to it.
pub open spec fn closed_among(
    active: Seq<OrderView>,
    updates: Seq<(Seq<char>, OrderStatusView)>,
    n: int,
    closed: OrderView,
) -> bool {
    exists|p: int, i: int|
        0 <= p < n && 0 <= i < active.len() && (#[trigger] updates[p]).1.is_terminal() && (
        #[trigger] active[i]).id == updates[p].0 && closed == active[i].with_status(updates[p].1)
}

/// The ledger of orders: those that still wait, and those that reached a
/// terminal status.
#[derive(Debug, PartialEq)]
pub struct Portfolio {
    active_orders: Vec<Order>,
    closed_orders: Vec<Order>,
}

impl Clone for Portfolio {
    fn clone(&self) -> (r: Self)
        ensures
            r.active_view() == self.active_view(),
            r.closed_view() == self.closed_view(),
    {
        let active_orders = clone_orders(&self.active_orders);
        let closed_orders = clone_orders(&self.closed_orders);
        Portfolio { active_orders, closed_orders }
    }
}

impl Portfolio {
    /// The active orders.
    pub closed spec fn active_view(&self) -> Seq<OrderView> {
        order_views(self.active_orders@)
    }

    /// The closed orders.
    pub closed spec fn closed_view(&self) -> Seq<OrderView> {
        order_views(self.closed_orders@)
    }

    /// The order `id` is in the portfolio.
    pub open spec fn holds(&self, id: Seq<char>) -> bool {
        has_id(self.active_view(), id) || has_id(self.closed_view(), id)
    }

    /// The invariant of the ledger: both sets are in ascending order of
    /// identifier, no identifier is in both, the active orders are in no
    /// terminal status and the closed ones are.
    pub open spec fn well_formed(&self) -> bool {
        &&& sorted_by_id(self.active_view())
        &&& sorted_by_id(self.closed_view())
        &&& forall|i: int|
            0 <= i < self.active_view().len() ==> !(#[trigger] self.active_view()[i]).status.is_terminal()
                && !has_id(self.closed_view(), self.active_view()[i].id)
        &&& forall|i: int|
            0 <= i < self.closed_view().len() ==> (
            #[trigger] self.closed_view()[i]).status.is_terminal()
    }

    pub fn new() -> (r: Portfolio)
        ensures
            r.well_formed(),
            r.active_view() == Seq::<OrderView>::empty(),
            r.closed_view() == Seq::<OrderView>::empty(),
    {
        let r = Portfolio { active_orders: Vec::new(), closed_orders: Vec::new() };
        assert(r.active_view() =~= Seq::<OrderView>::empty());
        assert(r.closed_view() =~= Seq::<OrderView>::empty());
        r
    }

    /// The active orders, in ascending order of identifier.
    pub fn active_orders(&self) -> (r: &Vec<Order>)
        ensures
            order_views(r@) == self.active_view(),
    {
        &self.active_orders
    }

    /// The closed orders, in ascending order of identifier.
    pub fn closed_orders(&self) -> (r: &Vec<Order>)
        ensures
            order_views(r@) == self.closed_view(),
    {
        &self.closed_orders
    }

    /// The active order `id`, if there is one.
    pub fn active_order(&self, id: &OrderId) -> (r: Option<&Order>)
        requires
            self.well_formed(),
        ensures
            match r {
                Some(order) => order@.id == id@ && self.active_view().contains(order@),
                None => !has_id(self.active_view(), id@),
            },
    {
        let (at, found) = position(&self.active_orders, id);
        if found {
            assert(self.active_view()[at as int] == self.active_orders[at as int]@);
            Some(&self.active_orders[at])
        } else {
            None
        }
    }

    /// The closed order `id`, if there is one.
    pub fn closed_order(&self, id: &OrderId) -> (r: Option<&Order>)
        requires
            self.well_formed(),
        ensures
            match r {
                Some(order) => order@.id == id@ && self.closed_view().contains(order@),
                None => !has_id(self.closed_view(), id@),
            },
    {
        let (at, found) = position(&self.closed_orders, id);
        if found {
            assert(self.closed_view()[at as int] == self.closed_orders[at as int]@);
            Some(&self.closed_orders[at])
        } else {
            None
        }
    }
}

/// A copy of the orders.
fn clone_orders(orders: &Vec<Order>) -> (r: Vec<Order>)
    ensures
        order_views(r@) == order_views(orders@),
{
    let mut r: Vec<Order> = Vec::new();
    let mut i: usize = 0;
    while i < orders.len()
        invariant
            i <= orders.len(),
            r.len() == i,
            forall|k: int| 0 <= k < i ==> (#[trigger] r[k])@ == orders[k]@,
        decreases orders.len() - i,
    {
        r.push(orders[i].clone());
        i = i + 1;
    }
    assert(order_views(r@) =~= order_views(orders@));
    r
}

/// In a sorted sequence no identifier occurs twice.
pub proof fn lemma_sorted_is_distinct(orders: Seq<OrderView>)
    requires
        sorted_by_id(orders),
    ensures
        distinct_ids(orders),
{
    assert forall|i: int, j: int| 0 <= i < j < orders.len() implies (#[trigger] orders[i]).id != (
    #[trigger] orders[j]).id by {
        lemma_id_before_irreflexive(orders[i].id);
    }
}

/// Where the order `id` stands among the sorted `orders`, or would have to
/// be put, and whether it is there.
fn position(orders: &Vec<Order>, id: &OrderId) -> (r: (usize, bool))
    requires
        sorted_by_id(order_views(orders@)),
    ensures
        r.0 <= orders.len(),
        forall|j: int| 0 <= j < r.0 ==> id_before((#[trigger] order_views(orders@)[j]).id, id@),
        forall|j: int|
            r.0 <= j < orders.len() ==> !id_before((#[trigger] order_views(orders@)[j]).id, id@),
        r.1 == has_id(order_views(orders@), id@),
        r.1 ==> r.0 < orders.len() && order_views(orders@)[r.0 as int].id == id@,
        !r.1 ==> forall|j: int|
            r.0 <= j < orders.len() ==> id_before(id@, (#[trigger] order_views(orders@)[j]).id),
{
    let ghost s = order_views(orders@);
    let mut lo: usize = 0;
    let mut hi: usize = orders.len();
    while lo < hi
        invariant
            lo <= hi <= orders.len(),
            s == order_views(orders@),
            sorted_by_id(s),
            forall|j: int| 0 <= j < lo ==> id_before((#[trigger] s[j]).id, id@),
            forall|j: int| hi <= j < s.len() ==> !id_before((#[trigger] s[j]).id, id@),
        decreases hi - lo,
    {
        let mid = lo + (hi - lo) / 2;
        assert(s[mid as int] == orders[mid as int]@);
        if id_is_before(orders[mid].id().as_str(), id.as_str()) {
            proof {
                assert forall|j: int| 0 <= j < mid + 1 implies id_before(
                    (#[trigger] s[j]).id,
                    id@,
                ) by {
                    if j < mid {
                        lemma_id_before_transitive(s[j].id, s[mid as int].id, id@);
                    }
                }
            }
            lo = mid + 1;
        } else {
            proof {
                assert forall|j: int| mid <= j < s.len() implies !id_before(
                    (#[trigger] s[j]).id,
                    id@,
                ) by {
                    if j > mid && id_before(s[j].id, id@) {
                        lemma_id_before_transitive(s[mid as int].id, s[j].id, id@);
                    }
                }
            }
            hi = mid;
        }
    }
    let mut found = false;
    if lo < orders.len() {
        assert(s[lo as int] == orders[lo as int]@);
        found = *orders[lo].id() == *id;
    }
    proof {
        if !found {
            assert forall|j: int| 0 <= j < s.len() implies (#[trigger] s[j]).id != id@ by {
                if j < lo {
                    lemma_id_before_irreflexive(id@);
                } else if j > lo {
                    if s[j].id == id@ {
                        assert(id_before(s[lo as int].id, s[j].id));
                    }
                }
            }
            assert forall|j: int| lo <= j < s.len() implies id_before(id@, (#[trigger] s[j]).id) by {
                lemma_id_before_total(id@, s[j].id);
            }
        }
    }
    (lo, found)
}

/// Puts the order into the sorted orders, at its place.
fn insert_sorted(orders: &mut Vec<Order>, order: Order) -> (at: usize)
    requires
        sorted_by_id(order_views(old(orders)@)),
        !has_id(order_views(old(orders)@), order@.id),
    ensures
        at <= old(orders).len(),
        order_views(final(orders)@) == order_views(old(orders)@).insert(at as int, order@),
        sorted_by_id(order_views(final(orders)@)),
{
    let ghost before = order_views(orders@);
    let (at, found) = position(orders, order.id());
    orders.insert(at, order);
    let ghost after = order_views(orders@);
    assert(after =~= before.insert(at as int, order@));
    assert forall|i: int, j: int| 0 <= i < j < after.len() implies id_before(
        (#[trigger] after[i]).id,
        (#[trigger] after[j]).id,
    ) by {
        if j < at {
            assert(after[i] == before[i] && after[j] == before[j]);
        } else if j == at {
            assert(after[i] == before[i]);
        } else if i < at {
            assert(after[i] == before[i] && after[j] == before[j - 1]);
            if i == j - 1 {
            }
        } else if i == at {
            assert(after[j] == before[j - 1]);
        } else {
            assert(after[i] == before[i - 1] && after[j] == before[j - 1]);
        }
    }
    at
}


proof fn lemma_insert_contains(orders: Seq<OrderView>, at: int, order: OrderView)
    requires
        0 <= at <= orders.len(),
    ensures
        forall|o: OrderView|
            #[trigger] orders.insert(at, order).contains(o) <==> orders.contains(o) || o == order,
        forall|id: Seq<char>|
            #[trigger] has_id(orders.insert(at, order), id) <==> has_id(orders, id) || id
                == order.id,
{
    let after = orders.insert(at, order);
    assert forall|o: OrderView| #[trigger] after.contains(o) <==> orders.contains(o) || o
        == order by {
        if after.contains(o) {
            let j = choose|j: int| 0 <= j < after.len() && after[j] == o;
            if j < at {
                assert(orders[j] == o);
            } else if j > at {
                assert(orders[j - 1] == o);
            }
        }
        if orders.contains(o) {
            let j = choose|j: int| 0 <= j < orders.len() && orders[j] == o;
            if j < at {
                assert(after[j] == o);
            } else {
                assert(after[j + 1] == o);
            }
        }
        if o == order {
            assert(after[at] == o);
        }
    }
    assert forall|id: Seq<char>| #[trigger] has_id(after, id) <==> has_id(orders, id) || id
        == order.id by {
        if has_id(after, id) {
            let j = choose|j: int| 0 <= j < after.len() && (#[trigger] after[j]).id == id;
            if j < at {
                assert(orders[j].id == id);
            } else if j > at {
                assert(orders[j - 1].id == id);
            }
        }
        if has_id(orders, id) {
            let j = choose|j: int| 0 <= j < orders.len() && (#[trigger] orders[j]).id == id;
            if j < at {
                assert(after[j].id == id);
            } else {
                assert(after[j + 1].id == id);
            }
        }
        if id == order.id {
            assert(after[at].id == id);
        }
    }
}

proof fn lemma_remove_contains(orders: Seq<OrderView>, at: int)
    requires
        0 <= at < orders.len(),
        sorted_by_id(orders),
    ensures
        sorted_by_id(orders.remove(at)),
        forall|o: OrderView|
            #[trigger] orders.remove(at).contains(o) <==> orders.contains(o) && o.id
                != orders[at].id,
        forall|id: Seq<char>|
            #[trigger] has_id(orders.remove(at), id) <==> has_id(orders, id) && id
                != orders[at].id,
{
    let after = orders.remove(at);
    lemma_sorted_is_distinct(orders);
    assert forall|i: int, j: int| 0 <= i < j < after.len() implies id_before(
        (#[trigger] after[i]).id,
        (#[trigger] after[j]).id,
    ) by {
        let a = if i < at { i } else { i + 1 };
        let b = if j < at { j } else { j + 1 };
        assert(after[i] == orders[a] && after[j] == orders[b]);
    }
    assert forall|o: OrderView| #[trigger] after.contains(o) <==> orders.contains(o) && o.id
        != orders[at].id by {
        if after.contains(o) {
            let j = choose|j: int| 0 <= j < after.len() && after[j] == o;
            let b = if j < at { j } else { j + 1 };
            assert(orders[b] == o);
        }
        if orders.contains(o) && o.id != orders[at].id {
            let j = choose|j: int| 0 <= j < orders.len() && orders[j] == o;
            if j < at {
                assert(after[j] == o);
            } else {
                assert(after[j - 1] == o);
            }
        }
    }
    assert forall|id: Seq<char>| #[trigger] has_id(after, id) <==> has_id(orders, id) && id
        != orders[at].id by {
        if has_id(after, id) {
            let j = choose|j: int| 0 <= j < after.len() && (#[trigger] after[j]).id == id;
            let b = if j < at { j } else { j + 1 };
            assert(orders[b].id == id);
        }
        if has_id(orders, id) && id != orders[at].id {
            let j = choose|j: int| 0 <= j < orders.len() && (#[trigger] orders[j]).id == id;
            if j < at {
                assert(after[j].id == id);
            } else {
                assert(after[j - 1].id == id);
            }
        }
    }
}

impl Portfolio {
    /// Whether `add_orders` takes these orders: no two of them share an
    /// identifier, and none has the identifier of an order of the portfolio.
    pub fn accepts(&self, orders: &Vec<Order>) -> (r: bool)
        requires
            self.well_formed(),
        ensures
            r == (distinct_ids(order_views(orders@)) && forall|i: int|
                0 <= i < orders.len() ==> !self.holds((#[trigger] order_views(orders@)[i]).id)),
    {
        let ghost s = order_views(orders@);
        let mut i: usize = 0;
        while i < orders.len()
            invariant
                i <= orders.len(),
                s == order_views(orders@),
                self.well_formed(),
                forall|a: int, b: int|
                    0 <= a < b < i ==> (#[trigger] s[a]).id != (#[trigger] s[b]).id,
                forall|a: int| 0 <= a < i ==> !self.holds((#[trigger] s[a]).id),
            decreases orders.len() - i,
        {
            let id = orders[i].id();
            assert(s[i as int] == orders[i as int]@);
            let (_, active) = position(&self.active_orders, id);
            let (_, closed) = position(&self.closed_orders, id);
            if active || closed {
                assert(self.holds(s[i as int].id));
                return false;
            }
            let mut j: usize = 0;
            while j < i
                invariant
                    j <= i < orders.len(),
                    s == order_views(orders@),
                    id@ == s[i as int].id,
                    forall|a: int| 0 <= a < j ==> (#[trigger] s[a]).id != s[i as int].id,
                decreases i - j,
            {
                assert(s[j as int] == orders[j as int]@);
                if *orders[j].id() == *id {
                    assert(s[j as int].id == s[i as int].id);
                    return false;
                }
                j = j + 1;
            }
            i = i + 1;
        }
        true
    }

    /// Takes the orders into the portfolio: those in a terminal status go
    /// to the closed orders, the others to the active ones. An order whose
    /// identifier is already there is not taken: see `accepts`.
    pub fn add_orders(&mut self, orders: Vec<Order>)
        requires
            old(self).well_formed(),
            distinct_ids(order_views(orders@)),
            forall|i: int|
                0 <= i < orders.len() ==> !old(self).holds((#[trigger] order_views(orders@)[i]).id),
        ensures
            final(self).well_formed(),
            forall|o: OrderView|
                #[trigger] final(self).active_view().contains(o) <==> old(self).active_view().contains(o)
                    || (order_views(orders@).contains(o) && !o.status.is_terminal()),
            forall|o: OrderView|
                #[trigger] final(self).closed_view().contains(o) <==> old(self).closed_view().contains(o)
                    || (order_views(orders@).contains(o) && o.status.is_terminal()),
            forall|id: Seq<char>|
                #[trigger] final(self).holds(id) <==> old(self).holds(id) || has_id(
                    order_views(orders@),
                    id,
                ),
            forall|c: OrderView|
                old(self).closed_view().contains(c) ==> #[trigger] final(self).closed_view().contains(c),
    {
        let ghost all = order_views(orders@);
        let mut rest = orders;
        while rest.len() > 0
            invariant
                self.well_formed(),
                rest.len() <= all.len(),
                order_views(rest@) == all.take(rest.len() as int),
                distinct_ids(all),
                forall|i: int| 0 <= i < rest.len() ==> !self.holds((#[trigger] all[i]).id),
                forall|o: OrderView|
                    #[trigger] self.active_view().contains(o) <==> old(self).active_view().contains(o)
                        || (all.skip(rest.len() as int).contains(o) && !o.status.is_terminal()),
                forall|o: OrderView|
                    #[trigger] self.closed_view().contains(o) <==> old(self).closed_view().contains(o)
                        || (all.skip(rest.len() as int).contains(o) && o.status.is_terminal()),
                forall|id: Seq<char>|
                    #[trigger] self.holds(id) <==> old(self).holds(id) || has_id(
                        all.skip(rest.len() as int),
                        id,
                    ),
            decreases rest.len(),
        {
            let ghost n = rest.len() as int;
            let ghost before = *self;
            let ghost active = self.active_view();
            let ghost closed = self.closed_view();
            let ghost shown = order_views(rest@);
            let order = rest.pop().unwrap();
            let ghost value = order@;
            assert(shown[n - 1] == value);
            assert(all[n - 1] == value);
            assert(order_views(rest@) =~= all.take(n - 1));
            assert(all.skip(n - 1) =~= seq![value] + all.skip(n));
            assert(!self.holds(value.id));
            let ghost at: int;
            if order.status().is_terminal() {
                let k = insert_sorted(&mut self.closed_orders, order);
                proof {
                    at = k as int;
                    lemma_insert_contains(closed, at, value);
                }
            } else {
                let k = insert_sorted(&mut self.active_orders, order);
                proof {
                    at = k as int;
                    lemma_insert_contains(active, at, value);
                }
            }
            proof {
                let later = all.skip(n);
                let now = all.skip(n - 1);
                assert forall|o: OrderView| #[trigger] now.contains(o) <==> later.contains(o) || o
                    == value by {
                    if now.contains(o) {
                        let j = choose|j: int| 0 <= j < now.len() && now[j] == o;
                        if j > 0 {
                            assert(later[j - 1] == o);
                        }
                    }
                    if later.contains(o) {
                        let j = choose|j: int| 0 <= j < later.len() && later[j] == o;
                        assert(now[j + 1] == o);
                    }
                    if o == value {
                        assert(now[0] == o);
                    }
                }
                assert forall|id: Seq<char>| #[trigger] has_id(now, id) <==> has_id(later, id)
                    || id == value.id by {
                    if has_id(now, id) {
                        let j = choose|j: int| 0 <= j < now.len() && (#[trigger] now[j]).id == id;
                        if j > 0 {
                            assert(later[j - 1].id == id);
                        }
                    }
                    if has_id(later, id) {
                        let j = choose|j: int|
                            0 <= j < later.len() && (#[trigger] later[j]).id == id;
                        assert(now[j + 1].id == id);
                    }
                    if id == value.id {
                        assert(now[0].id == id);
                    }
                }
                let active_now = self.active_view();
                let closed_now = self.closed_view();
                assert forall|id: Seq<char>| #[trigger]
                    self.holds(id) <==> old(self).holds(id) || has_id(now, id) by {
                    assert(has_id(active_now, id) || has_id(closed_now, id) <==> has_id(active, id)
                        || has_id(closed, id) || id == value.id);
                    assert(before.holds(id) <==> has_id(active, id) || has_id(closed, id));
                }
                assert forall|i: int| 0 <= i < rest.len() implies !self.holds(
                    (#[trigger] all[i]).id,
                ) by {
                    assert(all[i].id != all[n - 1].id);
                }
                assert forall|i: int| 0 <= i < active_now.len() implies !(
                #[trigger] active_now[i]).status.is_terminal() && !has_id(
                    closed_now,
                    active_now[i].id,
                ) by {
                    assert(active_now.contains(active_now[i]));
                    if active.contains(active_now[i]) {
                        let j = choose|j: int| 0 <= j < active.len() && active[j] == active_now[i];
                        assert(has_id(active, active[j].id));
                    }
                }
                assert forall|i: int| 0 <= i < closed_now.len() implies (
                #[trigger] closed_now[i]).status.is_terminal() by {
                    assert(closed_now.contains(closed_now[i]));
                    if closed.contains(closed_now[i]) {
                        let j = choose|j: int| 0 <= j < closed.len() && closed[j] == closed_now[i];
                    }
                }
            }
        }
        assert(all.skip(0) =~= all);
    }

    /// Applies the status changes: each change to a terminal status moves
    /// its order from the active orders to the closed ones, in that status.
    /// Changes to another status are passed over. A terminal change has to
    /// name an active order, and no two of them the same one.
    pub fn update_orders(&mut self, order_updates: &Vec<(OrderId, OrderStatus)>)
        requires
            old(self).well_formed(),
            forall|p: int|
                0 <= p < order_updates.len() && (#[trigger] update_views(
                    order_updates@,
                )[p]).1.is_terminal() ==> has_id(
                    old(self).active_view(),
                    update_views(order_updates@)[p].0,
                ),
            forall|p: int, q: int|
                0 <= p < q < order_updates.len() && (#[trigger] update_views(
                    order_updates@,
                )[p]).1.is_terminal() && (#[trigger] update_views(
                    order_updates@,
                )[q]).1.is_terminal() ==> update_views(order_updates@)[p].0 != update_views(
                    order_updates@,
                )[q].0,
        ensures
            final(self).well_formed(),
            forall|o: OrderView|
                #[trigger] final(self).active_view().contains(o) <==> old(self).active_view().contains(o)
                    && !closes_among(
                    update_views(order_updates@),
                    order_updates.len() as int,
                    o.id,
                ),
            forall|c: OrderView|
                #[trigger] final(self).closed_view().contains(c) <==> old(self).closed_view().contains(c)
                    || closed_among(
                    old(self).active_view(),
                    update_views(order_updates@),
                    order_updates.len() as int,
                    c,
                ),
            forall|id: Seq<char>| #[trigger] final(self).holds(id) <==> old(self).holds(id),
            forall|c: OrderView|
                old(self).closed_view().contains(c) ==> #[trigger] final(self).closed_view().contains(c),
    {
        let ghost updates = update_views(order_updates@);
        let ghost active0 = self.active_view();
        let ghost closed0 = self.closed_view();
        proof {
            lemma_sorted_is_distinct(active0);
        }
        let mut p: usize = 0;
        while p < order_updates.len()
            invariant
                p <= order_updates.len(),
                updates == update_views(order_updates@),
                active0 == old(self).active_view(),
                closed0 == old(self).closed_view(),
                distinct_ids(active0),
                self.well_formed(),
                forall|p: int|
                    0 <= p < updates.len() && (#[trigger] updates[p]).1.is_terminal() ==> has_id(
                        active0,
                        updates[p].0,
                    ),
                forall|p: int, q: int|
                    0 <= p < q < updates.len() && (#[trigger] updates[p]).1.is_terminal() && (
                    #[trigger] updates[q]).1.is_terminal() ==> updates[p].0 != updates[q].0,
                forall|o: OrderView|
                    #[trigger] self.active_view().contains(o) <==> active0.contains(o)
                        && !closes_among(updates, p as int, o.id),
                forall|c: OrderView|
                    #[trigger] self.closed_view().contains(c) <==> closed0.contains(c)
                        || closed_among(active0, updates, p as int, c),
                forall|id: Seq<char>| #[trigger] self.holds(id) <==> old(self).holds(id),
            decreases order_updates.len() - p,
        {
            let ghost active = self.active_view();
            let ghost closed = self.closed_view();
            let ghost id = updates[p as int].0;
            let ghost status = updates[p as int].1;
            assert(updates[p as int] == (order_updates[p as int].0@, order_updates[p as int].1@));
            if order_updates[p].1.is_terminal() {
                proof {
                    let i = choose|i: int| 0 <= i < active0.len() && (#[trigger] active0[i]).id == id;
                    assert(active0.contains(active0[i]));
                    assert(!closes_among(updates, p as int, id));
                    assert(active.contains(active0[i]));
                    let k = choose|k: int| 0 <= k < active.len() && active[k] == active0[i];
                    assert(active[k].id == id);
                }
                let Ghost(k) = self.move_active_order_to_closed_orders(
                    &order_updates[p].0,
                    order_updates[p].1.clone(),
                );
                proof {
                    let moved = active[k].with_status(status);
                    assert(active.contains(active[k]));
                    let i0 = choose|i: int| 0 <= i < active0.len() && active0[i] == active[k];
                    assert forall|o: OrderView| #[trigger]
                        self.active_view().contains(o) <==> active0.contains(o) && !closes_among(
                            updates,
                            p as int + 1,
                            o.id,
                        ) by {
                        if closes_among(updates, p as int + 1, o.id) && !closes_among(
                            updates,
                            p as int,
                            o.id,
                        ) {
                            let q = choose|q: int|
                                0 <= q < p as int + 1 && (#[trigger] updates[q]).0 == o.id
                                    && updates[q].1.is_terminal();
                            assert(q == p);
                        }
                        if o.id == id {
                            assert(updates[p as int].0 == o.id);
                        }
                    }
                    assert forall|c: OrderView| #[trigger]
                        self.closed_view().contains(c) <==> closed0.contains(c) || closed_among(
                            active0,
                            updates,
                            p as int + 1,
                            c,
                        ) by {
                        if closed_among(active0, updates, p as int + 1, c) && !closed_among(
                            active0,
                            updates,
                            p as int,
                            c,
                        ) {
                            let (q, i) = choose|q: int, i: int|
                                0 <= q < p as int + 1 && 0 <= i < active0.len() && (
                                #[trigger] updates[q]).1.is_terminal() && (
                                #[trigger] active0[i]).id == updates[q].0 && c
                                    == active0[i].with_status(updates[q].1);
                            assert(q == p);
                            if i != i0 {
                                if i < i0 {
                                    assert(active0[i].id != active0[i0].id);
                                } else {
                                    assert(active0[i0].id != active0[i].id);
                                }
                            }
                            assert(c == moved);
                        }
                        if c == moved {
                            assert(updates[p as int].1.is_terminal() && active0[i0].id
                                == updates[p as int].0);
                        }
                        if closed_among(active0, updates, p as int, c) {
                            let (q, i) = choose|q: int, i: int|
                                0 <= q < p as int && 0 <= i < active0.len() && (
                                #[trigger] updates[q]).1.is_terminal() && (
                                #[trigger] active0[i]).id == updates[q].0 && c
                                    == active0[i].with_status(updates[q].1);
                            assert(updates[q].1.is_terminal() && active0[i].id == updates[q].0);
                        }
                    }
                }
            } else {
                proof {
                    assert forall|o: OrderView|
                        closes_among(updates, p as int + 1, o.id) implies closes_among(
                        updates,
                        p as int,
                        o.id,
                    ) by {
                        let q = choose|q: int|
                            0 <= q < p as int + 1 && (#[trigger] updates[q]).0 == o.id
                                && updates[q].1.is_terminal();
                        assert(q != p);
                    }
                    assert forall|c: OrderView|
                        closed_among(active0, updates, p as int + 1, c) implies closed_among(
                        active0,
                        updates,
                        p as int,
                        c,
                    ) by {
                        let (q, i) = choose|q: int, i: int|
                            0 <= q < p as int + 1 && 0 <= i < active0.len() && (
                            #[trigger] updates[q]).1.is_terminal() && (
                            #[trigger] active0[i]).id == updates[q].0 && c
                                == active0[i].with_status(updates[q].1);
                        assert(q != p);
                    }
                }
            }
            p = p + 1;
        }
    }

    /// Moves the active order `order_id` to the closed orders, in the
    /// terminal status `order_status`.
    fn move_active_order_to_closed_orders(
        &mut self,
        order_id: &OrderId,
        order_status: OrderStatus,
    ) -> (r: Ghost<int>)
        requires
            old(self).well_formed(),
            has_id(old(self).active_view(), order_id@),
            order_status@.is_terminal(),
        ensures
            final(self).well_formed(),
            0 <= r@ < old(self).active_view().len(),
            old(self).active_view()[r@].id == order_id@,
            forall|o: OrderView|
                #[trigger] final(self).active_view().contains(o) <==> old(self).active_view().contains(o)
                    && o.id != order_id@,
            forall|c: OrderView|
                #[trigger] final(self).closed_view().contains(c) <==> old(self).closed_view().contains(c)
                    || c == old(self).active_view()[r@].with_status(order_status@),
            forall|id: Seq<char>| #[trigger] final(self).holds(id) <==> old(self).holds(id),
    {
        let ghost active = self.active_view();
        let ghost closed = self.closed_view();
        let (at, found) = position(&self.active_orders, order_id);
        let mut order = self.active_orders.remove(at);
        assert(order@ == active[at as int]);
        assert(self.active_view() =~= active.remove(at as int));
        order.set_status(order_status);
        let ghost moved = order@;
        proof {
            lemma_remove_contains(active, at as int);
            assert(!has_id(closed, moved.id));
        }
        let k = insert_sorted(&mut self.closed_orders, order);
        proof {
            lemma_insert_contains(closed, k as int, moved);
            let active_now = self.active_view();
            let closed_now = self.closed_view();
            assert forall|i: int| 0 <= i < active_now.len() implies !(
            #[trigger] active_now[i]).status.is_terminal() && !has_id(
                closed_now,
                active_now[i].id,
            ) by {
                assert(active_now.contains(active_now[i]));
                let j = choose|j: int| 0 <= j < active.len() && active[j] == active_now[i];
                assert(!has_id(closed, active[j].id));
            }
            assert forall|i: int| 0 <= i < closed_now.len() implies (
            #[trigger] closed_now[i]).status.is_terminal() by {
                assert(closed_now.contains(closed_now[i]));
                if closed.contains(closed_now[i]) {
                    let j = choose|j: int| 0 <= j < closed.len() && closed[j] == closed_now[i];
                }
            }
            assert forall|id: Seq<char>| #[trigger] self.holds(id) <==> old(self).holds(id) by {
                if id == order_id@ {
                    assert(has_id(closed_now, id));
                }
            }
        }
        Ghost(at as int)
    }
}

/// An identifier is in at most one place: no order is both active and
/// closed, and neither set holds an identifier twice.
pub proof fn law_one_place(portfolio: Portfolio, id: Seq<char>)
    requires
        portfolio.well_formed(),
    ensures
        !(has_id(portfolio.active_view(), id) && has_id(portfolio.closed_view(), id)),
        distinct_ids(portfolio.active_view()),
        distinct_ids(portfolio.closed_view()),
        portfolio.holds(id) <==> (has_id(portfolio.active_view(), id) != has_id(
            portfolio.closed_view(),
            id,
        )),
{
    lemma_sorted_is_distinct(portfolio.active_view());
    lemma_sorted_is_distinct(portfolio.closed_view());
    if has_id(portfolio.active_view(), id) {
        let i = choose|i: int|
            0 <= i < portfolio.active_view().len() && (#[trigger] portfolio.active_view()[i]).id
                == id;
        assert(!has_id(portfolio.closed_view(), portfolio.active_view()[i].id));
    }
}

} // verus!
