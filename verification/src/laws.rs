//! What holds of reconciling and of the estimates, whatever the records.

use vstd::prelude::*;
use crate::changes::{
    RegistryView, can_take_stock, lemma_claim_within, lemma_position_of,
    lemma_restocked_well_formed, made_cancelled, order_cancelled, position_of, production_recorded,
    restocked,
};
use crate::data::{
    DataView, Flavor, FlavorConfig, Item, OrderStatus, OrderView, PerFlavor, Timestamp,
};
use crate::estimate::{
    baking_minutes, batches, demand_ahead, estimated_wait, flavor_wait, longest_wait, share_ahead,
    shortfall,
};
use crate::reconcile::{call_up, 
    Fulfilment, Reconciled, can_fulfill, demand, demote_all, demoted, fulfil_all, fulfil_upto,
    fulfill, join_place, lemma_cooking_frame, lemma_fulfil_frame, lemma_fulfill_shrinks,
    lemma_join_place_bounds, lemma_reconcile_frame, lemma_waiting_line, line_of_waiting, line_upto,
    made_cooking, made_ready, precedes, reconcile, waiting_line, well_formed,
};

verus! {

/// Where an order steps into the line, it precedes everyone behind it and
/// does not precede the one in front of it.
proof fn lemma_join_place_splits(orders: Seq<OrderView>, line: Seq<usize>, index: usize)
    ensures
        forall|k: int|
            join_place(orders, line, index) <= k < line.len() ==> precedes(
                orders[index as int],
                orders[#[trigger] line[k] as int],
            ),
        join_place(orders, line, index) > 0 ==> !precedes(
            orders[index as int],
            orders[line[join_place(orders, line, index) - 1] as int],
        ),
    decreases line.len(),
{
    lemma_join_place_bounds(orders, line, index);
    if line.len() > 0 && precedes(orders[index as int], orders[line.last() as int]) {
        lemma_join_place_splits(orders, line.drop_last(), index);
        lemma_join_place_bounds(orders, line.drop_last(), index);
        assert forall|k: int| join_place(orders, line, index) <= k < line.len() implies precedes(
            orders[index as int],
            orders[#[trigger] line[k] as int],
        ) by {
            if k < line.len() - 1 {
                assert(line.drop_last()[k] == line[k]);
            }
        }
        let place = join_place(orders, line, index);
        if place > 0 {
            assert(line.drop_last()[place - 1] == line[place - 1]);
        }
    }
}

/// Nobody in the line is preceded by somebody behind them.
proof fn lemma_line_never_backwards(orders: Seq<OrderView>, n: nat)
    requires
        n <= orders.len() <= usize::MAX,
    ensures
        forall|a: int, b: int|
            0 <= a < b < line_upto(orders, n).len() ==> !precedes(
                orders[line_upto(orders, n)[b] as int],
                orders[line_upto(orders, n)[a] as int],
            ),
    decreases n,
{
    if n > 0 {
        lemma_line_never_backwards(orders, (n - 1) as nat);
        let before = line_upto(orders, (n - 1) as nat);
        if orders[n - 1].status == OrderStatus::Waiting {
            let index = (n - 1) as usize;
            let place = join_place(orders, before, index);
            lemma_join_place_bounds(orders, before, index);
            lemma_join_place_splits(orders, before, index);
            let line = before.insert(place, index);
            assert forall|a: int, b: int| 0 <= a < b < line.len() implies !precedes(
                orders[line[b] as int],
                orders[line[a] as int],
            ) by {
                let a0 = if a < place { a } else { a - 1 };
                let b0 = if b < place { b } else { b - 1 };
                if b == place {
                    assert(line[a] == before[a]);
                    if a < place - 1 {
                        assert(!precedes(
                            orders[before[place - 1] as int],
                            orders[before[a] as int],
                        ));
                    }
                } else if a == place {
                    assert(line[b] == before[b - 1]);
                    assert(precedes(orders[index as int], orders[before[b - 1] as int]));
                } else {
                    assert(line[a] == before[a0]);
                    assert(line[b] == before[b0]);
                }
            }
        }
    }
}

/// Tie-break determinism, and more: the line is in sequence. Of two
/// waiting orders with different numbers, the one further to the front
/// precedes the other: it has priority where the other has none, or else
/// was placed earlier, or else has the lower number.
pub proof fn lemma_line_in_sequence(orders: Seq<OrderView>, a: int, b: int)
    requires
        orders.len() <= usize::MAX,
        0 <= a < b < waiting_line(orders).len(),
        orders[waiting_line(orders)[a] as int].id != orders[waiting_line(orders)[b] as int].id,
    ensures
        precedes(
            orders[waiting_line(orders)[a] as int],
            orders[waiting_line(orders)[b] as int],
        ),
{
    let line = line_upto(orders, orders.len());
    lemma_line_never_backwards(orders, orders.len());
    assert(!precedes(orders[line[b] as int], orders[line[a] as int]));
}

/// A waiting order that precedes another is called up before it. So a
/// priority order is called up before every order without priority,
/// whenever the two were placed; and of two orders of the same priority
/// placed at the same time, the one with the lower number is called up
/// first.
pub proof fn lemma_called_up_first(orders: Seq<OrderView>, i: int, j: int)
    requires
        orders.len() <= usize::MAX,
        0 <= i < orders.len(),
        0 <= j < orders.len(),
        orders[i].status == OrderStatus::Waiting,
        orders[j].status == OrderStatus::Waiting,
        precedes(orders[i], orders[j]),
    ensures
        waiting_line(orders).contains(i as usize),
        waiting_line(orders).contains(j as usize),
        waiting_line(orders).index_of(i as usize) < waiting_line(orders).index_of(j as usize),
{
    let line = waiting_line(orders);
    lemma_waiting_line(orders);
    lemma_line_never_backwards(orders, orders.len());
    let a = line.index_of(i as usize);
    let b = line.index_of(j as usize);
    assert(line[a] == i as usize);
    assert(line[b] == j as usize);
    let upto = line_upto(orders, orders.len());
    if b < a {
        assert(!precedes(orders[upto[a] as int], orders[upto[b] as int]));
    }
}

/// What a smaller stock covers, a larger stock covers too.
proof fn lemma_can_fulfill_with_more(items: Seq<Item>, less: PerFlavor<usize>, more: PerFlavor<usize>)
    requires
        can_fulfill(items, less),
        forall|flavor: Flavor| #![trigger less.at(flavor)] less.at(flavor) <= more.at(flavor),
    ensures
        can_fulfill(items, more),
{
    assert forall|k: int| 0 <= k < items.len() implies more.at(#[trigger] items[k].flavor)
        >= items[k].quantity by {
        assert(less.at(items[k].flavor) <= more.at(items[k].flavor));
    }
}

/// An order that has not been called up yet stands as it did.
proof fn lemma_fulfil_untouched(
    start: Fulfilment,
    line: Seq<usize>,
    now: Timestamp,
    k: nat,
    i: int,
)
    requires
        k <= line.len(),
        line_of_waiting(start.orders, line),
        0 <= i < start.orders.len(),
        forall|m: int| 0 <= m < k ==> line[m] != i,
    ensures
        fulfil_upto(start, line, now, k).orders[i] == start.orders[i],
    decreases k,
{
    if k > 0 {
        lemma_fulfil_untouched(start, line, now, (k - 1) as nat, i);
        lemma_fulfil_frame(start, line, now, (k - 1) as nat);
        assert(line[k - 1] != i);
    }
}

/// An order that was called up and waits on was not covered, and is not
/// covered by what is left.
proof fn lemma_fulfil_leftovers(start: Fulfilment, line: Seq<usize>, now: Timestamp, k: nat)
    requires
        k <= line.len(),
        line_of_waiting(start.orders, line),
        line.no_duplicates(),
    ensures
        forall|m: int|
            0 <= m < k ==> {
                let after = fulfil_upto(start, line, now, k);
                after.orders[#[trigger] line[m] as int].status == OrderStatus::Waiting
                    ==> !can_fulfill(after.orders[line[m] as int].items, after.stock)
            },
    decreases k,
{
    if k > 0 {
        let before = fulfil_upto(start, line, now, (k - 1) as nat);
        let after = fulfil_upto(start, line, now, k);
        let index = line[k - 1] as int;
        lemma_fulfil_leftovers(start, line, now, (k - 1) as nat);
        lemma_fulfil_frame(start, line, now, (k - 1) as nat);
        assert forall|m: int|
            0 <= m < k && after.orders[#[trigger] line[m] as int].status
                == OrderStatus::Waiting implies !can_fulfill(
            after.orders[line[m] as int].items,
            after.stock,
        ) by {
            let i = line[m] as int;
            if m < k - 1 {
                assert(line[m] != line[k - 1]);
                assert(after.orders[i] == before.orders[i]);
                if can_fulfill(after.orders[i].items, after.stock) {
                    assert forall|flavor: Flavor|
                        #![trigger after.stock.at(flavor)]
                        after.stock.at(flavor) <= before.stock.at(flavor) by {
                        lemma_fulfill_shrinks(before.orders[index].items, before.stock, flavor);
                    }
                    lemma_can_fulfill_with_more(after.orders[i].items, after.stock, before.stock);
                }
            }
        }
    }
}

/// An order that was called up stands as it did right after that, however
/// many orders are called up after it.
proof fn lemma_fulfil_settled(start: Fulfilment, line: Seq<usize>, now: Timestamp, m: int, k: nat)
    requires
        0 <= m < k <= line.len(),
        line_of_waiting(start.orders, line),
        line.no_duplicates(),
    ensures
        fulfil_upto(start, line, now, k).orders[line[m] as int] == fulfil_upto(
            start,
            line,
            now,
            (m + 1) as nat,
        ).orders[line[m] as int],
    decreases k,
{
    if k > m + 1 {
        lemma_fulfil_settled(start, line, now, m, (k - 1) as nat);
        lemma_fulfil_frame(start, line, now, (k - 1) as nat);
        assert(line[k - 1] != line[m]);
    }
}

/// Priority precedence, in what it comes to: the order at the head of the
/// line has the first claim on the stock. If the stock covers it, it
/// becomes ready at `now`, and its number is the first of those returned,
/// whatever the orders behind it ask for.
pub proof fn lemma_head_of_line_is_served(data: DataView, now: Timestamp)
    requires
        data.orders.len() <= usize::MAX,
        waiting_line(demote_all(data.orders)).len() > 0,
        can_fulfill(
            data.orders[waiting_line(demote_all(data.orders))[0] as int].items,
            data.stock,
        ),
    ensures
        ({
            let head = waiting_line(demote_all(data.orders))[0] as int;
            let after = reconcile(data, now);
            &&& 0 <= head < data.orders.len()
            &&& after.data.orders[head].status == OrderStatus::Ready
            &&& after.data.orders[head].ready_at == Some(now)
            &&& after.promoted.len() > 0
            &&& after.promoted[0] == data.orders[head].id
        }),
{
    let first = demote_all(data.orders);
    let line = waiting_line(first);
    let head = line[0] as int;
    let start = Fulfilment {
        orders: first,
        stock: data.stock,
        promoted: Seq::empty(),
        notices: Seq::empty(),
    };
    lemma_waiting_line(first);
    assert(first[head] == demoted(data.orders[head]));
    let one = fulfil_upto(start, line, now, 1);
    assert(fulfil_upto(start, line, now, 0) == start);
    assert(one == call_up(start, head, now));
    assert(one.orders[head] == made_ready(first[head], now));
    lemma_fulfil_settled(start, line, now, 0, line.len());
    lemma_fulfil_frame(start, line, now, line.len());
    lemma_promoted_grows(start, line, now, 1, line.len());
    let served = fulfil_all(first, data.stock, now);
    lemma_waiting_line(served.orders);
    let second = waiting_line(served.orders);
    lemma_cooking_frame(served.orders, second, served.stock, data.configs, second.len());
}

/// The numbers returned only grow longer as more orders are called up.
proof fn lemma_promoted_grows(start: Fulfilment, line: Seq<usize>, now: Timestamp, m: nat, k: nat)
    requires
        m <= k <= line.len(),
    ensures
        fulfil_upto(start, line, now, m).promoted.len() <= fulfil_upto(
            start,
            line,
            now,
            k,
        ).promoted.len(),
        forall|j: int|
            0 <= j < fulfil_upto(start, line, now, m).promoted.len() ==> fulfil_upto(
                start,
                line,
                now,
                k,
            ).promoted[j] == fulfil_upto(start, line, now, m).promoted[j],
    decreases k,
{
    if m < k {
        lemma_promoted_grows(start, line, now, m, (k - 1) as nat);
    }
}

/// Where the stock covers no order of the line, calling them up changes
/// nothing.
proof fn lemma_fulfil_nothing(start: Fulfilment, line: Seq<usize>, now: Timestamp, k: nat)
    requires
        k <= line.len(),
        forall|m: int|
            0 <= m < k ==> !can_fulfill(start.orders[#[trigger] line[m] as int].items, start.stock),
    ensures
        fulfil_upto(start, line, now, k) == start,
    decreases k,
{
    if k > 0 {
        lemma_fulfil_nothing(start, line, now, (k - 1) as nat);
    }
}

/// Idempotence: records that were reconciled are left as they are by
/// reconciling them again, whenever that is done. No order becomes ready
/// and no notice is owed.
pub proof fn lemma_reconcile_idempotent(data: DataView, now: Timestamp, later: Timestamp)
    requires
        data.orders.len() <= usize::MAX,
    ensures
        reconcile(reconcile(data, now).data, later) == (Reconciled {
            data: reconcile(data, now).data,
            promoted: Seq::empty(),
            notices: Seq::empty(),
        }),
{
    let first = demote_all(data.orders);
    let line = waiting_line(first);
    let start = Fulfilment {
        orders: first,
        stock: data.stock,
        promoted: Seq::empty(),
        notices: Seq::empty(),
    };
    let served = fulfil_all(first, data.stock, now);
    lemma_waiting_line(first);
    lemma_fulfil_frame(start, line, now, line.len());
    lemma_fulfil_leftovers(start, line, now, line.len());
    let second = waiting_line(served.orders);
    lemma_waiting_line(served.orders);
    lemma_cooking_frame(served.orders, second, served.stock, data.configs, second.len());
    let once = reconcile(data, now).data;
    assert(demote_all(once.orders) =~= served.orders) by {
        assert forall|i: int| 0 <= i < served.orders.len() implies demoted(once.orders[i])
            == served.orders[i] by {
            assert(served.orders[i] == first[i] || served.orders[i] == made_ready(first[i], now));
            assert(first[i] == demoted(data.orders[i]));
        }
    }
    let again = Fulfilment {
        orders: served.orders,
        stock: served.stock,
        promoted: Seq::empty(),
        notices: Seq::empty(),
    };
    assert forall|m: int| 0 <= m < second.len() implies !can_fulfill(
        again.orders[#[trigger] second[m] as int].items,
        again.stock,
    ) by {
        let i = second[m] as int;
        assert(served.orders[i].status == OrderStatus::Waiting);
        assert(served.orders[i] == first[i] || served.orders[i] == made_ready(first[i], now));
        assert(first[i].status == OrderStatus::Waiting);
        assert(line.contains(i as usize));
        let m1 = line.index_of(i as usize);
        assert(line[m1] as int == i);
    }
    lemma_fulfil_nothing(again, second, later, second.len());
}

/// The pieces of `flavor` held by those of the first `n` orders that are
/// ready in `after` and were not in `before`.
pub open spec fn newly_ready(
    before: Seq<OrderView>,
    after: Seq<OrderView>,
    n: nat,
    flavor: Flavor,
) -> nat
    decreases n,
{
    if n == 0 {
        0
    } else {
        let rest = newly_ready(before, after, (n - 1) as nat, flavor);
        if before[n - 1].status != OrderStatus::Ready && after[n - 1].status
            == OrderStatus::Ready {
            rest + demand(after[n - 1].items, flavor)
        } else {
            rest
        }
    }
}

/// Each of the first `k` orders of the line that the stock covered item by
/// item found all the pieces that its items ask for together.
pub open spec fn served_in_full(
    start: Fulfilment,
    line: Seq<usize>,
    now: Timestamp,
    k: nat,
) -> bool
    decreases k,
{
    if k == 0 {
        true
    } else {
        let before = fulfil_upto(start, line, now, (k - 1) as nat);
        let items = before.orders[line[k - 1] as int].items;
        &&& served_in_full(start, line, now, (k - 1) as nat)
        &&& can_fulfill(items, before.stock) ==> forall|flavor: Flavor|
            demand(items, flavor) <= #[trigger] before.stock.at(flavor)
    }
}

/// Reconciling the records at `now` gives every order that becomes ready
/// all the pieces that its items ask for together.
pub open spec fn reconciled_in_full(data: DataView, now: Timestamp) -> bool {
    let first = demote_all(data.orders);
    served_in_full(
        Fulfilment {
            orders: first,
            stock: data.stock,
            promoted: Seq::empty(),
            notices: Seq::empty(),
        },
        waiting_line(first),
        now,
        waiting_line(first).len(),
    )
}

/// No two of the items are of the same flavor.
pub open spec fn one_item_per_flavor(items: Seq<Item>) -> bool {
    forall|i: int, j: int| 0 <= i < j < items.len() ==> items[i].flavor != items[j].flavor
}

/// Items that the stock holds all together leave the stock smaller by
/// just what they ask for.
proof fn lemma_fulfill_exact(items: Seq<Item>, stock: PerFlavor<usize>, flavor: Flavor)
    requires
        demand(items, flavor) <= stock.at(flavor),
    ensures
        fulfill(items, stock).at(flavor) == stock.at(flavor) - demand(items, flavor),
    decreases items.len(),
{
    if items.len() > 0 {
        lemma_fulfill_exact(items.drop_last(), stock, flavor);
    }
}

/// An order that becomes ready adds what it asks for to what the newly
/// ready orders hold.
proof fn lemma_newly_ready_update(
    before: Seq<OrderView>,
    after: Seq<OrderView>,
    n: nat,
    i: int,
    now: Timestamp,
    flavor: Flavor,
)
    requires
        n <= before.len() == after.len(),
        0 <= i < after.len(),
        before[i].status != OrderStatus::Ready,
        after[i].status != OrderStatus::Ready,
    ensures
        newly_ready(before, after.update(i, made_ready(after[i], now)), n, flavor) == newly_ready(
            before,
            after,
            n,
            flavor,
        ) + if i < n {
            demand(after[i].items, flavor)
        } else {
            0
        },
    decreases n,
{
    if n > 0 {
        lemma_newly_ready_update(before, after, (n - 1) as nat, i, now, flavor);
    }
}

/// What the newly ready orders hold depends only on which orders are
/// ready and on their items.
proof fn lemma_newly_ready_same(
    before: Seq<OrderView>,
    after: Seq<OrderView>,
    other_before: Seq<OrderView>,
    other_after: Seq<OrderView>,
    n: nat,
    flavor: Flavor,
)
    requires
        n <= before.len() == after.len(),
        before.len() == other_before.len() == other_after.len(),
        forall|i: int|
            0 <= i < n ==> {
                &&& ((#[trigger] before[i]).status == OrderStatus::Ready) == (other_before[i].status
                    == OrderStatus::Ready)
                &&& (after[i].status == OrderStatus::Ready) == (other_after[i].status
                    == OrderStatus::Ready)
                &&& after[i].items == other_after[i].items
            },
    ensures
        newly_ready(before, after, n, flavor) == newly_ready(other_before, other_after, n, flavor),
    decreases n,
{
    if n > 0 {
        lemma_newly_ready_same(before, after, other_before, other_after, (n - 1) as nat, flavor);
        assert(before[n - 1].status == before[n - 1].status);
    }
}

/// Where nothing has happened yet, no order is newly ready.
proof fn lemma_newly_ready_none(orders: Seq<OrderView>, n: nat, flavor: Flavor)
    requires
        n <= orders.len(),
    ensures
        newly_ready(orders, orders, n, flavor) == 0,
    decreases n,
{
    if n > 0 {
        lemma_newly_ready_none(orders, (n - 1) as nat, flavor);
    }
}

/// The second step hands out what it takes from the stock.
proof fn lemma_fulfil_conserves(
    start: Fulfilment,
    line: Seq<usize>,
    now: Timestamp,
    k: nat,
    flavor: Flavor,
)
    requires
        k <= line.len(),
        line_of_waiting(start.orders, line),
        line.no_duplicates(),
        served_in_full(start, line, now, k),
    ensures
        start.stock.at(flavor) == newly_ready(
            start.orders,
            fulfil_upto(start, line, now, k).orders,
            start.orders.len(),
            flavor,
        ) + fulfil_upto(start, line, now, k).stock.at(flavor),
    decreases k,
{
    if k == 0 {
        lemma_newly_ready_none(start.orders, start.orders.len(), flavor);
    } else {
        let before = fulfil_upto(start, line, now, (k - 1) as nat);
        let index = line[k - 1] as int;
        lemma_fulfil_conserves(start, line, now, (k - 1) as nat, flavor);
        lemma_fulfil_frame(start, line, now, (k - 1) as nat);
        lemma_fulfil_untouched(start, line, now, (k - 1) as nat, index);
        let items = before.orders[index].items;
        if can_fulfill(items, before.stock) {
            assert(demand(items, flavor) <= before.stock.at(flavor));
            lemma_fulfill_exact(items, before.stock, flavor);
            lemma_newly_ready_update(
                start.orders,
                before.orders,
                start.orders.len(),
                index,
                now,
                flavor,
            );
        }
    }
}

/// Conservation: where reconciling gives every order that becomes ready
/// all its pieces, the stock before is the stock after and what the newly
/// ready orders hold, flavor by flavor.
pub proof fn lemma_reconcile_conserves(data: DataView, now: Timestamp, flavor: Flavor)
    requires
        data.orders.len() <= usize::MAX,
        reconciled_in_full(data, now),
    ensures
        data.stock.at(flavor) == newly_ready(
            data.orders,
            reconcile(data, now).data.orders,
            data.orders.len(),
            flavor,
        ) + reconcile(data, now).data.stock.at(flavor),
{
    let first = demote_all(data.orders);
    let line = waiting_line(first);
    let start = Fulfilment {
        orders: first,
        stock: data.stock,
        promoted: Seq::empty(),
        notices: Seq::empty(),
    };
    let served = fulfil_all(first, data.stock, now);
    lemma_waiting_line(first);
    lemma_fulfil_frame(start, line, now, line.len());
    lemma_fulfil_conserves(start, line, now, line.len(), flavor);
    let second = waiting_line(served.orders);
    lemma_waiting_line(served.orders);
    lemma_cooking_frame(served.orders, second, served.stock, data.configs, second.len());
    let after = reconcile(data, now).data.orders;
    assert forall|i: int| 0 <= i < data.orders.len() implies {
        &&& ((#[trigger] first[i]).status == OrderStatus::Ready) == (data.orders[i].status
            == OrderStatus::Ready)
        &&& (served.orders[i].status == OrderStatus::Ready) == (after[i].status
            == OrderStatus::Ready)
        &&& served.orders[i].items == after[i].items
    } by {
        assert(first[i] == demoted(data.orders[i]));
        assert(after[i] == served.orders[i] || after[i] == made_cooking(served.orders[i]));
    }
    lemma_newly_ready_same(first, served.orders, data.orders, after, data.orders.len(), flavor);
}

/// Items that are covered one by one, no two of them of one flavor, are
/// covered all together.
proof fn lemma_single_items_covered(items: Seq<Item>, stock: PerFlavor<usize>, flavor: Flavor)
    requires
        one_item_per_flavor(items),
        can_fulfill(items, stock),
    ensures
        demand(items, flavor) <= stock.at(flavor),
        (forall|k: int| 0 <= k < items.len() ==> (#[trigger] items[k]).flavor != flavor) ==> demand(
            items,
            flavor,
        ) == 0,
    decreases items.len(),
{
    if items.len() > 0 {
        let rest = items.drop_last();
        assert forall|i: int, j: int| 0 <= i < j < rest.len() implies rest[i].flavor
            != rest[j].flavor by {
            assert(rest[i] == items[i]);
            assert(rest[j] == items[j]);
        }
        assert forall|k: int| 0 <= k < rest.len() implies stock.at(#[trigger] rest[k].flavor)
            >= rest[k].quantity by {
            assert(rest[k] == items[k]);
        }
        lemma_single_items_covered(rest, stock, flavor);
        if items.last().flavor == flavor {
            assert forall|k: int| 0 <= k < rest.len() implies (#[trigger] rest[k]).flavor
                != flavor by {
                assert(rest[k] == items[k]);
            }
            assert(stock.at(items[items.len() - 1].flavor) >= items[items.len() - 1].quantity);
        } else {
            if forall|k: int| 0 <= k < items.len() ==> (#[trigger] items[k]).flavor != flavor {
                assert forall|k: int| 0 <= k < rest.len() implies (#[trigger] rest[k]).flavor
                    != flavor by {
                    assert(rest[k] == items[k]);
                }
            }
        }
    }
}

/// Where no order asks for a flavor in two of its items, each of the first
/// `k` orders of the line gets all its pieces when it becomes ready.
proof fn lemma_single_items_served_in_full(
    start: Fulfilment,
    line: Seq<usize>,
    now: Timestamp,
    k: nat,
)
    requires
        k <= line.len(),
        line_of_waiting(start.orders, line),
        forall|i: int|
            0 <= i < start.orders.len() ==> one_item_per_flavor((#[trigger] start.orders[i]).items),
    ensures
        served_in_full(start, line, now, k),
    decreases k,
{
    if k > 0 {
        lemma_single_items_served_in_full(start, line, now, (k - 1) as nat);
        lemma_fulfil_frame(start, line, now, (k - 1) as nat);
        let before = fulfil_upto(start, line, now, (k - 1) as nat);
        let index = line[k - 1] as int;
        let items = before.orders[index].items;
        assert(items == start.orders[index].items);
        if can_fulfill(items, before.stock) {
            assert forall|flavor: Flavor| demand(items, flavor) <= #[trigger] before.stock.at(
                flavor,
            ) by {
                lemma_single_items_covered(items, before.stock, flavor);
            }
        }
    }
}

/// Where no order asks for a flavor in two of its items, reconciling
/// gives every order that becomes ready all its pieces, so that the stock
/// is conserved.
pub proof fn lemma_single_items_reconciled_in_full(data: DataView, now: Timestamp)
    requires
        data.orders.len() <= usize::MAX,
        forall|i: int|
            0 <= i < data.orders.len() ==> one_item_per_flavor((#[trigger] data.orders[i]).items),
    ensures
        reconciled_in_full(data, now),
{
    let first = demote_all(data.orders);
    lemma_waiting_line(first);
    let start = Fulfilment {
        orders: first,
        stock: data.stock,
        promoted: Seq::empty(),
        notices: Seq::empty(),
    };
    assert forall|i: int| 0 <= i < first.len() implies one_item_per_flavor(
        (#[trigger] first[i]).items,
    ) by {
        assert(first[i] == demoted(data.orders[i]));
        assert(one_item_per_flavor(data.orders[i].items));
    }
    lemma_single_items_served_in_full(start, waiting_line(first), now, waiting_line(first).len());
}

/// An order that joins the records adds its share to the demand ahead.
proof fn lemma_demand_ahead_insert(
    orders: Seq<OrderView>,
    place: int,
    extra: OrderView,
    at: Timestamp,
    flavor: Flavor,
)
    requires
        0 <= place <= orders.len(),
    ensures
        demand_ahead(orders.insert(place, extra), at, flavor) == demand_ahead(orders, at, flavor)
            + share_ahead(extra, at, flavor),
    decreases orders.len() - place,
{
    let longer = orders.insert(place, extra);
    if place == orders.len() {
        assert(longer.drop_last() =~= orders);
    } else {
        assert(longer.drop_last() =~= orders.drop_last().insert(place, extra));
        assert(longer.last() == orders.last());
        lemma_demand_ahead_insert(orders.drop_last(), place, extra, at, flavor);
    }
}

/// More pieces take no fewer batches.
proof fn lemma_batches_grow(fewer: nat, more: nat, per_batch: nat)
    requires
        fewer <= more,
        per_batch > 0,
    ensures
        batches(fewer, per_batch) <= batches(more, per_batch),
{
    let a = (fewer + per_batch - 1) / per_batch as int;
    let b = (more + per_batch - 1) / per_batch as int;
    assert(a <= b) by (nonlinear_arith)
        requires
            a == (fewer + per_batch - 1) / per_batch as int,
            b == (more + per_batch - 1) / per_batch as int,
            fewer <= more,
            per_batch > 0,
    ;
    assert(a >= 0) by (nonlinear_arith)
        requires
            a == (fewer + per_batch - 1) / per_batch as int,
            per_batch > 0,
            fewer >= 0,
    ;
}

/// More pieces take no less time to bake.
proof fn lemma_baking_minutes_grow(fewer: nat, more: nat, config: FlavorConfig)
    requires
        fewer <= more,
    ensures
        baking_minutes(fewer, config) <= baking_minutes(more, config),
{
    if fewer > 0 && config.quantity_per_batch > 0 {
        let per_batch = config.quantity_per_batch as nat;
        lemma_batches_grow(fewer, more, per_batch);
        let a = batches(fewer, per_batch);
        let b = batches(more, per_batch);
        let minutes = config.cooking_time_minutes as nat;
        assert(a * minutes <= b * minutes) by (nonlinear_arith)
            requires
                a <= b,
                minutes >= 0,
        ;
    }
}

/// Where every flavor takes no less time, the longest wait is no shorter.
proof fn lemma_longest_wait_grows(data: DataView, longer: DataView, order: OrderView, n: nat)
    requires
        forall|flavor: Flavor|
            flavor_wait(data, order.ordered_at, flavor) <= #[trigger] flavor_wait(
                longer,
                order.ordered_at,
                flavor,
            ),
    ensures
        longest_wait(data, order, n) <= longest_wait(longer, order, n),
    decreases n,
{
    if n > 0 {
        lemma_longest_wait_grows(data, longer, order, (n - 1) as nat);
        let flavor = order.items[n - 1].flavor;
        assert(flavor_wait(data, order.ordered_at, flavor) <= flavor_wait(
            longer,
            order.ordered_at,
            flavor,
        ));
    }
}

/// Wait monotonicity: an order that joins the records, wherever and
/// whatever it is, shortens the estimated wait of no waiting order. So
/// more demand ahead of an order never lets it expect to wait less.
pub proof fn lemma_wait_grows_with_demand(
    data: DataView,
    order: OrderView,
    place: int,
    extra: OrderView,
)
    requires
        0 <= place <= data.orders.len(),
        order.status == OrderStatus::Waiting,
    ensures
        estimated_wait(data, order).unwrap() <= estimated_wait(
            DataView { orders: data.orders.insert(place, extra), ..data },
            order,
        ).unwrap(),
{
    let longer = DataView { orders: data.orders.insert(place, extra), ..data };
    assert forall|flavor: Flavor|
        flavor_wait(data, order.ordered_at, flavor) <= #[trigger] flavor_wait(
            longer,
            order.ordered_at,
            flavor,
        ) by {
        lemma_demand_ahead_insert(data.orders, place, extra, order.ordered_at, flavor);
        lemma_baking_minutes_grow(
            shortfall(
                demand_ahead(data.orders, order.ordered_at, flavor),
                data.stock.at(flavor) as nat,
            ),
            shortfall(
                demand_ahead(longer.orders, order.ordered_at, flavor),
                data.stock.at(flavor) as nat,
            ),
            data.configs.at(flavor),
        );
    }
    lemma_longest_wait_grows(data, longer, order, order.items.len());
}

/// The time at which an order became ready is set once: reconciling
/// leaves it as it is, and sets it only for an order that becomes ready
/// now.
pub proof fn lemma_ready_at_is_kept(data: DataView, now: Timestamp, i: int)
    requires
        well_formed(data),
        0 <= i < data.orders.len(),
    ensures
        data.orders[i].ready_at.is_some() ==> reconcile(data, now).data.orders[i]
            == data.orders[i],
        data.orders[i].ready_at.is_none() ==> {
            let after = reconcile(data, now).data.orders[i];
            ||| after.ready_at.is_none()
            ||| after.ready_at == Some(now) && after.status == OrderStatus::Ready
        },
{
    lemma_reconcile_frame(data, now);
    assert(reconcile(data, now).data.orders[i].id == data.orders[i].id);
    assert(data.orders[i].ready_at.is_some() ==> data.orders[i].status != OrderStatus::Waiting
        && data.orders[i].status != OrderStatus::Cooking);
}

/// Conservation over a batch: where reconciling gives every order that
/// becomes ready all its pieces, the stock before and what was baked are
/// the stock after and what the newly ready orders hold, flavor by flavor.
pub proof fn lemma_production_conserved(
    registry: RegistryView,
    production: Seq<Item>,
    now: Timestamp,
    flavor: Flavor,
)
    requires
        well_formed(registry.data),
        can_take_stock(registry.data, production),
        reconciled_in_full(
            DataView { stock: restocked(registry.data.stock, production), ..registry.data },
            now,
        ),
    ensures
        registry.data.stock.at(flavor) + demand(production, flavor) == newly_ready(
            registry.data.orders,
            production_recorded(registry, production, now).data.orders,
            registry.data.orders.len(),
            flavor,
        ) + production_recorded(registry, production, now).data.stock.at(flavor),
{
    let stocked = DataView { stock: restocked(registry.data.stock, production), ..registry.data };
    lemma_restocked_well_formed(registry.data, production);
    assert(restocked(registry.data.stock, production).at(flavor) == registry.data.stock.at(flavor)
        + demand(production, flavor));
    lemma_reconcile_conserves(stocked, now, flavor);
}

/// Cancelling an order that is not ready leaves the stock and every other
/// order as they are.
pub proof fn lemma_cancel_unready_keeps_stock(registry: RegistryView, id: u32, now: Timestamp)
    requires
        position_of(registry.data.orders, id).is_some(),
        registry.data.orders[position_of(registry.data.orders, id).unwrap()].status
            != OrderStatus::Ready,
    ensures
        order_cancelled(registry, id, now).data.stock == registry.data.stock,
        order_cancelled(registry, id, now).data.orders == registry.data.orders.update(
            position_of(registry.data.orders, id).unwrap(),
            made_cancelled(registry.data.orders[position_of(registry.data.orders, id).unwrap()]),
        ),
        order_cancelled(registry, id, now).outbox == registry.outbox,
{
}

/// Cancelling a ready order gives its pieces back: where reconciling
/// then gives every order that becomes ready all its pieces, the stock
/// before and what the order asked for are the stock after and what the
/// newly ready orders hold, flavor by flavor.
pub proof fn lemma_cancel_ready_refunds(
    registry: RegistryView,
    id: u32,
    now: Timestamp,
    flavor: Flavor,
)
    requires
        well_formed(registry.data),
        position_of(registry.data.orders, id).is_some(),
        registry.data.orders[position_of(registry.data.orders, id).unwrap()].status
            == OrderStatus::Ready,
        reconciled_in_full(refunded(registry.data, id), now),
    ensures
        registry.data.stock.at(flavor) + demand(
            registry.data.orders[position_of(registry.data.orders, id).unwrap()].items,
            flavor,
        ) == newly_ready(
            refunded(registry.data, id).orders,
            order_cancelled(registry, id, now).data.orders,
            registry.data.orders.len(),
            flavor,
        ) + order_cancelled(registry, id, now).data.stock.at(flavor),
{
    let i = position_of(registry.data.orders, id).unwrap();
    lemma_position_of(registry.data.orders, id);
    let order = registry.data.orders[i];
    let back = refunded(registry.data, id);
    assert(crate::reconcile::committed(registry.data, flavor) < usize::MAX);
    lemma_claim_within(registry.data.orders, i, flavor);
    assert(back.stock.at(flavor) == registry.data.stock.at(flavor) + demand(order.items, flavor));
    lemma_reconcile_conserves(back, now, flavor);
}

/// The records after the order with this number was called off and its
/// pieces went back to the stock, before they are reconciled.
pub open spec fn refunded(data: DataView, id: u32) -> DataView {
    let i = position_of(data.orders, id).unwrap();
    DataView {
        orders: data.orders.update(i, made_cancelled(data.orders[i])),
        stock: restocked(data.stock, data.orders[i].items),
        ..data
    }
}

} // verus!
