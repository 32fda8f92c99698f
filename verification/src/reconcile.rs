//! What reconciling the orders with the stock means.
//!
//! Reconciling takes three steps. Every order marked as cooking goes back to
//! waiting. The waiting orders are then called up in their line, priority
//! orders first, and each one that the stock still covers takes its pieces
//! and becomes ready. Those left waiting are called up once more, and each
//! one whose shortfall the very next batch would cover is marked as cooking.
//!
//! The functions here say this over the views of the records. The registry
//! carries it out; the laws at the end of the file are what follows.

use vstd::prelude::*;
use crate::data::{opening_records, 
    DataView, Flavor, FlavorConfig, Item, NotifyView, OrderStatus, OrderView, PerFlavor, Timestamp,
};
use crate::text::decimal;

verus! {

/// A message for one target that an order is ready.
pub struct NoticeView {
    pub order_id: u32,
    pub target: NotifyView,
    pub message: Seq<char>,
}

/// How many pieces of `flavor` the items ask for.
pub open spec fn demand(items: Seq<Item>, flavor: Flavor) -> nat
    decreases items.len(),
{
    if items.len() == 0 {
        0
    } else {
        let rest = demand(items.drop_last(), flavor);
        if items.last().flavor == flavor {
            rest + items.last().quantity as nat
        } else {
            rest
        }
    }
}

/// The order has not been handed over or called off.
pub open spec fn is_open(order: OrderView) -> bool {
    order.status == OrderStatus::Waiting || order.status == OrderStatus::Cooking || order.status
        == OrderStatus::Ready
}

/// The pieces of `flavor` that the order still stands for: what it asks
/// for while it is open, nothing once it is completed or cancelled.
pub open spec fn claim(order: OrderView, flavor: Flavor) -> nat {
    if is_open(order) {
        demand(order.items, flavor)
    } else {
        0
    }
}

/// The claims of all orders on `flavor`.
pub open spec fn outstanding(orders: Seq<OrderView>, flavor: Flavor) -> nat
    decreases orders.len(),
{
    if orders.len() == 0 {
        0
    } else {
        outstanding(orders.drop_last(), flavor) + claim(orders.last(), flavor)
    }
}

/// The pieces of `flavor` in stock or claimed by an open order.
pub open spec fn committed(data: DataView, flavor: Flavor) -> nat {
    data.stock.at(flavor) as nat + outstanding(data.orders, flavor)
}

/// What holds of the records at all times: numbers were given out in
/// rising sequence, an order that has never been ready carries no time of
/// readiness, no order names a target twice, and the pieces in stock or
/// claimed can be counted in a machine word, with room for one more.
pub open spec fn well_formed(data: DataView) -> bool {
    &&& data.orders.len() <= usize::MAX
    &&& forall|i: int, j: int|
        0 <= i < j < data.orders.len() ==> data.orders[i].id < data.orders[j].id
    &&& forall|i: int|
        0 <= i < data.orders.len() && (data.orders[i].status == OrderStatus::Waiting
            || data.orders[i].status == OrderStatus::Cooking)
            ==> (#[trigger] data.orders[i]).ready_at.is_none()
    &&& forall|i: int|
        0 <= i < data.orders.len() ==> (#[trigger] data.orders[i]).notify.no_duplicates()
    &&& forall|flavor: Flavor| #[trigger] committed(data, flavor) < usize::MAX
}

/// The order as it leaves the first step: cooking becomes waiting.
pub open spec fn demoted(order: OrderView) -> OrderView {
    if order.status == OrderStatus::Cooking {
        OrderView { status: OrderStatus::Waiting, ..order }
    } else {
        order
    }
}

/// All orders after the first step.
pub open spec fn demote_all(orders: Seq<OrderView>) -> Seq<OrderView> {
    orders.map_values(|o: OrderView| demoted(o))
}

/// `a` is called up before `b`: a priority order before one without
/// priority, then the earlier order, then the lower number.
pub open spec fn precedes(a: OrderView, b: OrderView) -> bool {
    if a.is_priority != b.is_priority {
        a.is_priority
    } else if a.ordered_at != b.ordered_at {
        a.ordered_at.before(b.ordered_at)
    } else {
        a.id < b.id
    }
}

/// Where the order at `index` steps into the line: behind the last order
/// that it does not precede.
pub open spec fn join_place(orders: Seq<OrderView>, line: Seq<usize>, index: usize) -> int
    decreases line.len(),
{
    if line.len() > 0 && precedes(orders[index as int], orders[line.last() as int]) {
        join_place(orders, line.drop_last(), index)
    } else {
        line.len() as int
    }
}

/// The line with the order at `index` added.
pub open spec fn join_line(orders: Seq<OrderView>, line: Seq<usize>, index: usize) -> Seq<usize> {
    line.insert(join_place(orders, line, index), index)
}

/// The line formed by the waiting orders among the first `n`.
pub open spec fn line_upto(orders: Seq<OrderView>, n: nat) -> Seq<usize>
    decreases n,
{
    if n == 0 {
        Seq::empty()
    } else {
        let line = line_upto(orders, (n - 1) as nat);
        if orders[n - 1].status == OrderStatus::Waiting {
            join_line(orders, line, (n - 1) as usize)
        } else {
            line
        }
    }
}

/// The waiting orders, each by its place in `orders`, in the sequence in
/// which they are called up.
pub open spec fn waiting_line(orders: Seq<OrderView>) -> Seq<usize> {
    line_upto(orders, orders.len())
}

/// The stock holds each item's quantity of its flavor. Each item is held
/// against the stock on its own.
pub open spec fn can_fulfill(items: Seq<Item>, stock: PerFlavor<usize>) -> bool {
    forall|k: int| 0 <= k < items.len() ==> stock.at(#[trigger] items[k].flavor) >= items[k].quantity
}

/// The stock after `item` was taken from it. It never falls below zero.
pub open spec fn take_item(stock: PerFlavor<usize>, item: Item) -> PerFlavor<usize> {
    let had = stock.at(item.flavor);
    stock.with(
        item.flavor,
        if had >= item.quantity {
            (had - item.quantity) as usize
        } else {
            0
        },
    )
}

/// The stock after the items were taken from it, one after the other.
pub open spec fn fulfill(items: Seq<Item>, stock: PerFlavor<usize>) -> PerFlavor<usize>
    decreases items.len(),
{
    if items.len() == 0 {
        stock
    } else {
        take_item(fulfill(items.drop_last(), stock), items.last())
    }
}

/// The words sent when the order with this number is ready.
pub open spec fn ready_message(id: u32) -> Seq<char> {
    "#"@ + decimal(id as nat) + "番 のご注文の準備ができました！"@
}

/// One notice for each target of the order, in the sequence of the
/// targets.
pub open spec fn notices_for(order: OrderView) -> Seq<NoticeView> {
    order.notify.map_values(
        |target: NotifyView|
            NoticeView { order_id: order.id, target, message: ready_message(order.id) },
    )
}

/// The order once it is ready at `now`.
pub open spec fn made_ready(order: OrderView, now: Timestamp) -> OrderView {
    OrderView { status: OrderStatus::Ready, ready_at: Some(now), ..order }
}

/// How far the second step has come: the orders and the stock as they
/// stand, the numbers of the orders made ready, and the notices owed.
pub struct Fulfilment {
    pub orders: Seq<OrderView>,
    pub stock: PerFlavor<usize>,
    pub promoted: Seq<u32>,
    pub notices: Seq<NoticeView>,
}

/// The order at `index` is called up: if the stock covers it, it takes its
/// pieces and is ready; if not, nothing changes.
pub open spec fn call_up(state: Fulfilment, index: int, now: Timestamp) -> Fulfilment {
    let order = state.orders[index];
    if can_fulfill(order.items, state.stock) {
        Fulfilment {
            orders: state.orders.update(index, made_ready(order, now)),
            stock: fulfill(order.items, state.stock),
            promoted: state.promoted.push(order.id),
            notices: state.notices + notices_for(order),
        }
    } else {
        state
    }
}

/// The second step after the first `k` orders of the line were called up.
pub open spec fn fulfil_upto(
    start: Fulfilment,
    line: Seq<usize>,
    now: Timestamp,
    k: nat,
) -> Fulfilment
    decreases k,
{
    if k == 0 {
        start
    } else {
        call_up(fulfil_upto(start, line, now, (k - 1) as nat), line[k - 1] as int, now)
    }
}

/// The second step on orders without a cooking order among them.
pub open spec fn fulfil_all(
    orders: Seq<OrderView>,
    stock: PerFlavor<usize>,
    now: Timestamp,
) -> Fulfilment {
    let line = waiting_line(orders);
    fulfil_upto(
        Fulfilment { orders, stock, promoted: Seq::empty(), notices: Seq::empty() },
        line,
        now,
        line.len(),
    )
}

/// The pieces of `flavor` that the first `k` orders of the line ask for.
pub open spec fn demand_upto(
    orders: Seq<OrderView>,
    line: Seq<usize>,
    k: nat,
    flavor: Flavor,
) -> nat
    decreases k,
{
    if k == 0 {
        0
    } else {
        demand_upto(orders, line, (k - 1) as nat, flavor) + demand(
            orders[line[k - 1] as int].items,
            flavor,
        )
    }
}

/// What has to be baked so that `quantity` more pieces can be handed out
/// when `ahead` pieces go to earlier orders and `stock` pieces are there.
pub open spec fn needed_from_production(ahead: nat, quantity: nat, stock: nat) -> nat {
    if ahead + quantity > stock {
        (ahead + quantity - stock) as nat
    } else {
        0
    }
}

/// Stock and one batch of the item's flavor cover the item together with
/// the `ahead` pieces that go to earlier orders.
pub open spec fn next_batch_covers(
    item: Item,
    ahead: nat,
    stock: PerFlavor<usize>,
    configs: PerFlavor<FlavorConfig>,
) -> bool {
    needed_from_production(ahead, item.quantity as nat, stock.at(item.flavor) as nat)
        <= configs.at(item.flavor).quantity_per_batch
}

/// The order at place `k` of the line is cooking: it has items, and the
/// next batch covers each of them, given what the orders before it in the
/// line ask for.
pub open spec fn is_cooking(
    orders: Seq<OrderView>,
    line: Seq<usize>,
    k: nat,
    stock: PerFlavor<usize>,
    configs: PerFlavor<FlavorConfig>,
) -> bool {
    let items = orders[line[k as int] as int].items;
    &&& items.len() > 0
    &&& forall|j: int|
        0 <= j < items.len() ==> next_batch_covers(
            #[trigger] items[j],
            demand_upto(orders, line, k, items[j].flavor),
            stock,
            configs,
        )
}

/// The order marked as cooking.
pub open spec fn made_cooking(order: OrderView) -> OrderView {
    OrderView { status: OrderStatus::Cooking, ..order }
}

/// The third step after the first `k` orders of the line were looked at.
/// `orders` is what the second step left.
pub open spec fn cooking_upto(
    orders: Seq<OrderView>,
    line: Seq<usize>,
    stock: PerFlavor<usize>,
    configs: PerFlavor<FlavorConfig>,
    k: nat,
) -> Seq<OrderView>
    decreases k,
{
    if k == 0 {
        orders
    } else {
        let before = cooking_upto(orders, line, stock, configs, (k - 1) as nat);
        let index = line[k - 1] as int;
        if is_cooking(orders, line, (k - 1) as nat, stock, configs) {
            before.update(index, made_cooking(before[index]))
        } else {
            before
        }
    }
}

/// The third step on what the second step left.
pub open spec fn mark_cooking(
    orders: Seq<OrderView>,
    stock: PerFlavor<usize>,
    configs: PerFlavor<FlavorConfig>,
) -> Seq<OrderView> {
    let line = waiting_line(orders);
    cooking_upto(orders, line, stock, configs, line.len())
}

/// What reconciling leaves: the records, the numbers of the orders made
/// ready in the sequence in which they were called up, and the notices
/// owed.
pub struct Reconciled {
    pub data: DataView,
    pub promoted: Seq<u32>,
    pub notices: Seq<NoticeView>,
}

/// The records reconciled at `now`.
pub open spec fn reconcile(data: DataView, now: Timestamp) -> Reconciled {
    let served = fulfil_all(demote_all(data.orders), data.stock, now);
    Reconciled {
        data: DataView {
            orders: mark_cooking(served.orders, served.stock, data.configs),
            stock: served.stock,
            configs: data.configs,
        },
        promoted: served.promoted,
        notices: served.notices,
    }
}

/// The records of a stall that opens are well-formed.
pub proof fn lemma_opening_records_well_formed()
    ensures
        well_formed(opening_records()),
{
    assert forall|flavor: Flavor| #[trigger] committed(opening_records(), flavor) < usize::MAX by {
        assert(outstanding(opening_records().orders, flavor) == 0);
    }
}

/// The place found by walking the line from its end is the place where
/// the order steps in.
pub proof fn lemma_join_place(orders: Seq<OrderView>, line: Seq<usize>, index: usize, place: int)
    requires
        0 <= place <= line.len(),
        forall|k: int|
            place <= k < line.len() ==> precedes(orders[index as int], orders[#[trigger] line[k] as int]),
        place > 0 ==> !precedes(orders[index as int], orders[line[place - 1] as int]),
    ensures
        join_place(orders, line, index) == place,
    decreases line.len(),
{
    if place < line.len() {
        assert(precedes(orders[index as int], orders[line[line.len() - 1] as int]));
        lemma_join_place(orders, line.drop_last(), index, place);
    }
}

/// An order steps into the line somewhere between its ends.
pub proof fn lemma_join_place_bounds(orders: Seq<OrderView>, line: Seq<usize>, index: usize)
    ensures
        0 <= join_place(orders, line, index) <= line.len(),
    decreases line.len(),
{
    if line.len() > 0 && precedes(orders[index as int], orders[line.last() as int]) {
        lemma_join_place_bounds(orders, line.drop_last(), index);
    }
}

/// Who stands in the line: each waiting order among the first `n`, once,
/// and nobody else.
pub proof fn lemma_line_members(orders: Seq<OrderView>, n: nat)
    requires
        n <= orders.len() <= usize::MAX,
    ensures
        line_upto(orders, n).no_duplicates(),
        forall|k: int|
            0 <= k < line_upto(orders, n).len() ==> {
                &&& (#[trigger] line_upto(orders, n)[k]) < n
                &&& orders[line_upto(orders, n)[k] as int].status == OrderStatus::Waiting
            },
        forall|i: int|
            0 <= i < n && (#[trigger] orders[i]).status == OrderStatus::Waiting ==> line_upto(
                orders,
                n,
            ).contains(i as usize),
    decreases n,
{
    if n > 0 {
        let before = line_upto(orders, (n - 1) as nat);
        lemma_line_members(orders, (n - 1) as nat);
        if orders[n - 1].status == OrderStatus::Waiting {
            let index = (n - 1) as usize;
            let place = join_place(orders, before, index);
            lemma_join_place_bounds(orders, before, index);
            let line = before.insert(place, index);
            assert(line == line_upto(orders, n));
            assert forall|a: int, b: int| 0 <= a < line.len() && 0 <= b < line.len() && a != b implies line[a] != line[b] by {
                if a != place && b != place {
                    let a0 = if a < place { a } else { a - 1 };
                    let b0 = if b < place { b } else { b - 1 };
                    assert(line[a] == before[a0]);
                    assert(line[b] == before[b0]);
                }
            }
            assert forall|i: int|
                0 <= i < n && (#[trigger] orders[i]).status == OrderStatus::Waiting implies line.contains(i as usize) by {
                if i == n - 1 {
                    assert(line[place] == index);
                } else {
                    assert(before.contains(i as usize));
                    let k = choose|k: int| 0 <= k < before.len() && before[k] == i as usize;
                    let k1 = if k < place { k } else { k + 1 };
                    assert(line[k1] == i as usize);
                }
            }
        } else {
            assert forall|i: int|
                0 <= i < n && (#[trigger] orders[i]).status == OrderStatus::Waiting implies line_upto(orders, n).contains(i as usize) by {
                assert(before.contains(i as usize));
            }
        }
    }
}

/// What the waiting orders among the first `n` ask for.
pub open spec fn waiting_demand(orders: Seq<OrderView>, n: nat, flavor: Flavor) -> nat
    decreases n,
{
    if n == 0 {
        0
    } else {
        let before = waiting_demand(orders, (n - 1) as nat, flavor);
        if orders[n - 1].status == OrderStatus::Waiting {
            before + demand(orders[n - 1].items, flavor)
        } else {
            before
        }
    }
}

/// An item asks for no more than all items of its flavor together.
pub proof fn lemma_demand_covers_item(items: Seq<Item>, k: int)
    requires
        0 <= k < items.len(),
    ensures
        items[k].quantity <= demand(items, items[k].flavor),
    decreases items.len(),
{
    if k < items.len() - 1 {
        lemma_demand_covers_item(items.drop_last(), k);
    }
}

/// The first items ask for no more than all of them.
pub proof fn lemma_demand_take(items: Seq<Item>, n: nat, flavor: Flavor)
    requires
        n <= items.len(),
    ensures
        demand(items.take(n as int), flavor) <= demand(items, flavor),
    decreases items.len() - n,
{
    if n < items.len() {
        lemma_demand_take(items, n + 1, flavor);
        assert(items.take(n as int + 1).drop_last() =~= items.take(n as int));
    } else {
        assert(items.take(n as int) =~= items);
    }
}

/// Lines that agree on their first `k` places ask for the same there.
pub proof fn lemma_demand_upto_prefix(
    orders: Seq<OrderView>,
    line: Seq<usize>,
    other: Seq<usize>,
    k: nat,
    flavor: Flavor,
)
    requires
        k <= line.len(),
        k <= other.len(),
        forall|j: int| 0 <= j < k ==> line[j] == other[j],
    ensures
        demand_upto(orders, line, k, flavor) == demand_upto(orders, other, k, flavor),
    decreases k,
{
    if k > 0 {
        lemma_demand_upto_prefix(orders, line, other, (k - 1) as nat, flavor);
    }
}

/// The demand along a line grows with every place.
pub proof fn lemma_demand_upto_grows(
    orders: Seq<OrderView>,
    line: Seq<usize>,
    k: nat,
    n: nat,
    flavor: Flavor,
)
    requires
        k <= n,
    ensures
        demand_upto(orders, line, k, flavor) <= demand_upto(orders, line, n, flavor),
    decreases n,
{
    if k < n {
        lemma_demand_upto_grows(orders, line, k, (n - 1) as nat, flavor);
    }
}

/// An order that steps into a line adds its own demand to the line's.
pub proof fn lemma_demand_upto_insert(
    orders: Seq<OrderView>,
    line: Seq<usize>,
    place: int,
    index: usize,
    flavor: Flavor,
)
    requires
        0 <= place <= line.len(),
    ensures
        demand_upto(orders, line.insert(place, index), line.len() + 1, flavor) == demand_upto(
            orders,
            line,
            line.len(),
            flavor,
        ) + demand(orders[index as int].items, flavor),
    decreases line.len() - place,
{
    let longer = line.insert(place, index);
    let n = line.len();
    lemma_demand_upto_prefix(orders, longer, longer.drop_last(), n, flavor);
    if place == n {
        assert(longer.drop_last() =~= line);
    } else {
        assert(longer.drop_last() =~= line.drop_last().insert(place, index));
        assert(longer[n as int] == line.last());
        lemma_demand_upto_insert(orders, line.drop_last(), place, index, flavor);
        lemma_demand_upto_prefix(orders, line, line.drop_last(), (n - 1) as nat, flavor);
    }
}

/// The line of the waiting orders asks for what the waiting orders ask
/// for.
pub proof fn lemma_line_demand(orders: Seq<OrderView>, n: nat, flavor: Flavor)
    requires
        n <= orders.len() <= usize::MAX,
    ensures
        demand_upto(orders, line_upto(orders, n), line_upto(orders, n).len(), flavor)
            == waiting_demand(orders, n, flavor),
    decreases n,
{
    if n > 0 {
        lemma_line_demand(orders, (n - 1) as nat, flavor);
        if orders[n - 1].status == OrderStatus::Waiting {
            let before = line_upto(orders, (n - 1) as nat);
            lemma_join_place_bounds(orders, before, (n - 1) as usize);
            lemma_demand_upto_insert(
                orders,
                before,
                join_place(orders, before, (n - 1) as usize),
                (n - 1) as usize,
                flavor,
            );
        }
    }
}

/// The first `n` orders claim no more than all orders.
pub proof fn lemma_outstanding_prefix(orders: Seq<OrderView>, n: nat, flavor: Flavor)
    requires
        n <= orders.len(),
    ensures
        outstanding(orders.take(n as int), flavor) <= outstanding(orders, flavor),
    decreases orders.len() - n,
{
    if n < orders.len() {
        lemma_outstanding_prefix(orders, n + 1, flavor);
        assert(orders.take(n as int + 1).drop_last() =~= orders.take(n as int));
    } else {
        assert(orders.take(n as int) =~= orders);
    }
}

/// The waiting orders among the first `n` ask for no more than the first
/// `n` orders claim.
pub proof fn lemma_waiting_demand_prefix(orders: Seq<OrderView>, n: nat, flavor: Flavor)
    requires
        n <= orders.len(),
    ensures
        waiting_demand(orders, n, flavor) <= outstanding(orders.take(n as int), flavor),
    decreases n,
{
    if n > 0 {
        lemma_waiting_demand_prefix(orders, (n - 1) as nat, flavor);
        assert(orders.take(n as int).drop_last() =~= orders.take(n - 1));
    }
}

/// However far one has come along the line of the waiting orders, the
/// demand so far is within what the open orders claim.
pub proof fn lemma_line_demand_bounded(orders: Seq<OrderView>, k: nat, flavor: Flavor)
    requires
        orders.len() <= usize::MAX,
        k <= waiting_line(orders).len(),
    ensures
        demand_upto(orders, waiting_line(orders), k, flavor) <= outstanding(orders, flavor),
{
    let line = waiting_line(orders);
    lemma_demand_upto_grows(orders, line, k, line.len(), flavor);
    lemma_line_demand(orders, orders.len(), flavor);
    lemma_waiting_demand_prefix(orders, orders.len(), flavor);
    lemma_outstanding_prefix(orders, orders.len(), flavor);
}

/// Taking an item leaves no more of any flavor than there was.
pub proof fn lemma_fulfill_shrinks(items: Seq<Item>, stock: PerFlavor<usize>, flavor: Flavor)
    ensures
        fulfill(items, stock).at(flavor) <= stock.at(flavor),
    decreases items.len(),
{
    if items.len() > 0 {
        lemma_fulfill_shrinks(items.drop_last(), stock, flavor);
    }
}

/// Every entry of the line is the place of a waiting order.
pub open spec fn line_of_waiting(orders: Seq<OrderView>, line: Seq<usize>) -> bool {
    forall|j: int|
        0 <= j < line.len() ==> (#[trigger] line[j]) < orders.len() && orders[line[j] as int].status
            == OrderStatus::Waiting
}

/// What the second step does to the records: each order stays as it was
/// or, if it was waiting, is made ready; and no flavor's stock grows.
pub proof fn lemma_fulfil_frame(start: Fulfilment, line: Seq<usize>, now: Timestamp, k: nat)
    requires
        k <= line.len(),
        line_of_waiting(start.orders, line),
    ensures
        fulfil_upto(start, line, now, k).orders.len() == start.orders.len(),
        forall|i: int|
            0 <= i < start.orders.len() ==> {
                let after = #[trigger] fulfil_upto(start, line, now, k).orders[i];
                ||| after == start.orders[i]
                ||| start.orders[i].status == OrderStatus::Waiting && after == made_ready(
                    start.orders[i],
                    now,
                )
            },
        forall|flavor: Flavor|
            #![trigger fulfil_upto(start, line, now, k).stock.at(flavor)]
            fulfil_upto(start, line, now, k).stock.at(flavor) <= start.stock.at(flavor),
    decreases k,
{
    if k > 0 {
        lemma_fulfil_frame(start, line, now, (k - 1) as nat);
        let before = fulfil_upto(start, line, now, (k - 1) as nat);
        let index = line[k - 1] as int;
        assert(start.orders[index].status == OrderStatus::Waiting);
        assert forall|flavor: Flavor|
            #![trigger fulfil_upto(start, line, now, k).stock.at(flavor)]
            fulfil_upto(start, line, now, k).stock.at(flavor) <= start.stock.at(flavor) by {
            lemma_fulfill_shrinks(before.orders[index].items, before.stock, flavor);
            assert(before.stock.at(flavor) <= start.stock.at(flavor));
        }
    }
}

/// What the third step does to the records: each order stays as it was
/// or, if it was waiting, is marked as cooking.
pub proof fn lemma_cooking_frame(
    orders: Seq<OrderView>,
    line: Seq<usize>,
    stock: PerFlavor<usize>,
    configs: PerFlavor<FlavorConfig>,
    k: nat,
)
    requires
        k <= line.len(),
        line_of_waiting(orders, line),
    ensures
        cooking_upto(orders, line, stock, configs, k).len() == orders.len(),
        forall|i: int|
            0 <= i < orders.len() ==> {
                let after = #[trigger] cooking_upto(orders, line, stock, configs, k)[i];
                ||| after == orders[i]
                ||| orders[i].status == OrderStatus::Waiting && after == made_cooking(orders[i])
            },
    decreases k,
{
    if k > 0 {
        lemma_cooking_frame(orders, line, stock, configs, (k - 1) as nat);
        let index = line[k - 1] as int;
        assert(orders[index].status == OrderStatus::Waiting);
    }
}

/// Orders that claim the same one by one claim the same together.
pub proof fn lemma_outstanding_same(before: Seq<OrderView>, after: Seq<OrderView>, flavor: Flavor)
    requires
        before.len() == after.len(),
        forall|i: int|
            0 <= i < before.len() ==> claim(#[trigger] before[i], flavor) == claim(
                after[i],
                flavor,
            ),
    ensures
        outstanding(before, flavor) == outstanding(after, flavor),
    decreases before.len(),
{
    if before.len() > 0 {
        lemma_outstanding_same(before.drop_last(), after.drop_last(), flavor);
    }
}

/// The waiting line of any orders is a line of waiting orders.
pub proof fn lemma_waiting_line(orders: Seq<OrderView>)
    requires
        orders.len() <= usize::MAX,
    ensures
        line_of_waiting(orders, waiting_line(orders)),
        waiting_line(orders).no_duplicates(),
        forall|i: int|
            0 <= i < orders.len() && (#[trigger] orders[i]).status == OrderStatus::Waiting
                ==> waiting_line(orders).contains(i as usize),
{
    lemma_line_members(orders, orders.len());
}

/// What reconciling does to the records: the stock of no flavor grows, and
/// each order stays what it was but for where it stands and when it became
/// ready. An order that was completed, cancelled or ready is left as it
/// was; one that was waiting or cooking is waiting or cooking afterwards,
/// or ready since `now`.
pub proof fn lemma_reconcile_frame(data: DataView, now: Timestamp)
    requires
        data.orders.len() <= usize::MAX,
    ensures
        reconcile(data, now).data.configs == data.configs,
        reconcile(data, now).data.orders.len() == data.orders.len(),
        forall|flavor: Flavor|
            #![trigger reconcile(data, now).data.stock.at(flavor)]
            reconcile(data, now).data.stock.at(flavor) <= data.stock.at(flavor),
        forall|i: int|
            0 <= i < data.orders.len() ==> {
                let before = data.orders[i];
                let after = #[trigger] reconcile(data, now).data.orders[i];
                if before.status == OrderStatus::Waiting || before.status == OrderStatus::Cooking {
                    ||| after == OrderView { status: OrderStatus::Waiting, ..before }
                    ||| after == OrderView { status: OrderStatus::Cooking, ..before }
                    ||| after == made_ready(before, now)
                } else {
                    after == before
                }
            },
{
    let demoted = demote_all(data.orders);
    let line = waiting_line(demoted);
    lemma_waiting_line(demoted);
    let start = Fulfilment {
        orders: demoted,
        stock: data.stock,
        promoted: Seq::empty(),
        notices: Seq::empty(),
    };
    lemma_fulfil_frame(start, line, now, line.len());
    let served = fulfil_all(demoted, data.stock, now);
    lemma_waiting_line(served.orders);
    let second = waiting_line(served.orders);
    lemma_cooking_frame(served.orders, second, served.stock, data.configs, second.len());
    assert forall|flavor: Flavor|
        #![trigger reconcile(data, now).data.stock.at(flavor)]
        reconcile(data, now).data.stock.at(flavor) <= data.stock.at(flavor) by {
        assert(served.stock.at(flavor) <= start.stock.at(flavor));
    }
    assert forall|i: int| 0 <= i < data.orders.len() implies {
        let before = data.orders[i];
        let after = #[trigger] reconcile(data, now).data.orders[i];
        if before.status == OrderStatus::Waiting || before.status == OrderStatus::Cooking {
            ||| after == OrderView { status: OrderStatus::Waiting, ..before }
            ||| after == OrderView { status: OrderStatus::Cooking, ..before }
            ||| after == made_ready(before, now)
        } else {
            after == before
        }
    } by {
        let mid = served.orders[i];
        assert(mid == demoted[i] || (demoted[i].status == OrderStatus::Waiting && mid
            == made_ready(demoted[i], now)));
        let after = cooking_upto(served.orders, second, served.stock, data.configs, second.len())[i];
        assert(after == mid || (mid.status == OrderStatus::Waiting && after == made_cooking(mid)));
    }
}

/// Reconciling well-formed records leaves them well-formed.
pub proof fn lemma_reconcile_well_formed(data: DataView, now: Timestamp)
    requires
        well_formed(data),
    ensures
        well_formed(reconcile(data, now).data),
{
    lemma_reconcile_frame(data, now);
    let after = reconcile(data, now).data;
    assert forall|flavor: Flavor| #[trigger] committed(after, flavor) < usize::MAX by {
        assert(after.stock.at(flavor) <= data.stock.at(flavor));
        assert(committed(data, flavor) < usize::MAX);
        assert forall|i: int| 0 <= i < data.orders.len() implies claim(
            #[trigger] data.orders[i],
            flavor,
        ) == claim(after.orders[i], flavor) by {
            assert(after.orders[i].items == data.orders[i].items);
        }
        lemma_outstanding_same(data.orders, after.orders, flavor);
    }
    assert forall|i: int, j: int| 0 <= i < j < after.orders.len() implies after.orders[i].id
        < after.orders[j].id by {
        assert(after.orders[i].id == data.orders[i].id);
        assert(after.orders[j].id == data.orders[j].id);
    }
    assert forall|i: int|
        0 <= i < after.orders.len() && (after.orders[i].status == OrderStatus::Waiting
            || after.orders[i].status == OrderStatus::Cooking) implies (#[trigger] after.orders[i]).ready_at.is_none() by {
        assert(data.orders[i].status == OrderStatus::Waiting || data.orders[i].status
            == OrderStatus::Cooking);
    }
    assert forall|i: int| 0 <= i < after.orders.len() implies (#[trigger] after.orders[i]).notify.no_duplicates() by {
        assert(after.orders[i].notify == data.orders[i].notify);
    }
}

} // verus!
