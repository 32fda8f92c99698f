//! What each change to the records means: taking an order, recording what
//! was baked, completing and cancelling, priority, and the targets to tell.

use vstd::prelude::*;
use crate::data::{
    Data, DataView, Flavor, FlavorConfig, Item, Notify, NotifyView, Order, OrderStatus, OrderView,
    PerFlavor, Timestamp, notify_views, order_views,
};
use crate::reconcile::{
    NoticeView, claim, committed, demand, lemma_demand_take, lemma_outstanding_prefix, outstanding,
    reconcile, well_formed,
};

verus! {

/// The registry as contracts speak of it: the records, and the notices
/// that wait to be handed out.
pub struct RegistryView {
    pub data: DataView,
    pub outbox: Seq<NoticeView>,
}

/// The registry after its records were reconciled at `now`: the notices
/// owed are added to the outbox.
pub open spec fn reconciled(registry: RegistryView, now: Timestamp) -> RegistryView {
    let outcome = reconcile(registry.data, now);
    RegistryView { data: outcome.data, outbox: registry.outbox + outcome.notices }
}

/// The highest number among the orders, or zero if there is none.
pub open spec fn max_id(orders: Seq<OrderView>) -> nat
    decreases orders.len(),
{
    if orders.len() == 0 {
        0
    } else {
        let rest = max_id(orders.drop_last());
        if orders.last().id > rest {
            orders.last().id as nat
        } else {
            rest
        }
    }
}

/// The place of the first order with this number.
pub open spec fn position_of(orders: Seq<OrderView>, id: u32) -> Option<int>
    decreases orders.len(),
{
    if orders.len() == 0 {
        None
    } else {
        match position_of(orders.drop_last(), id) {
            Some(i) => Some(i),
            None => if orders.last().id == id {
                Some(orders.len() - 1)
            } else {
                None
            },
        }
    }
}

/// A new order as it is taken: waiting, with nobody to tell.
pub open spec fn new_order(id: u32, items: Seq<Item>, is_priority: bool, now: Timestamp) -> OrderView {
    OrderView {
        id,
        items,
        status: OrderStatus::Waiting,
        ordered_at: now,
        ready_at: None,
        completed_at: None,
        notify: Seq::empty(),
        is_priority,
    }
}

/// The records can take an order for these items: there is a number left
/// for it, and the pieces in stock or claimed can still be counted.
pub open spec fn can_take_order(data: DataView, items: Seq<Item>) -> bool {
    &&& data.orders.len() < usize::MAX
    &&& max_id(data.orders) < u32::MAX
    &&& forall|flavor: Flavor| #[trigger] committed(data, flavor) + demand(items, flavor) < usize::MAX
}

/// The records with a new order at their end, numbered one above the
/// highest number so far.
pub open spec fn with_order(
    data: DataView,
    items: Seq<Item>,
    is_priority: bool,
    now: Timestamp,
) -> DataView {
    DataView {
        orders: data.orders.push(
            new_order((max_id(data.orders) + 1) as u32, items, is_priority, now),
        ),
        ..data
    }
}

/// The stock can take these pieces: those in stock or claimed can still
/// be counted.
pub open spec fn can_take_stock(data: DataView, items: Seq<Item>) -> bool {
    forall|flavor: Flavor| #[trigger] committed(data, flavor) + demand(items, flavor) < usize::MAX
}

/// The stock with the items added, flavor by flavor.
pub open spec fn restocked(stock: PerFlavor<usize>, items: Seq<Item>) -> PerFlavor<usize> {
    PerFlavor {
        tsubuan: (stock.tsubuan + demand(items, Flavor::Tsubuan)) as usize,
        custard: (stock.custard + demand(items, Flavor::Custard)) as usize,
        kurikinton: (stock.kurikinton + demand(items, Flavor::Kurikinton)) as usize,
    }
}

/// The stock as a list: each flavor of which there is any, in menu order.
pub open spec fn stock_items(stock: PerFlavor<usize>) -> Seq<Item> {
    let tsubuan = if stock.tsubuan > 0 {
        seq![Item { flavor: Flavor::Tsubuan, quantity: stock.tsubuan }]
    } else {
        Seq::empty()
    };
    let custard = if stock.custard > 0 {
        seq![Item { flavor: Flavor::Custard, quantity: stock.custard }]
    } else {
        Seq::empty()
    };
    let kurikinton = if stock.kurikinton > 0 {
        seq![Item { flavor: Flavor::Kurikinton, quantity: stock.kurikinton }]
    } else {
        Seq::empty()
    };
    tsubuan + custard + kurikinton
}

/// The order handed over at `now`.
pub open spec fn made_completed(order: OrderView, now: Timestamp) -> OrderView {
    OrderView { status: OrderStatus::Completed, completed_at: Some(now), ..order }
}

/// The order called off.
pub open spec fn made_cancelled(order: OrderView) -> OrderView {
    OrderView { status: OrderStatus::Cancelled, ..order }
}

/// The targets with `target` among them: added at the end unless it is
/// there already.
pub open spec fn with_target(targets: Seq<NotifyView>, target: NotifyView) -> Seq<NotifyView> {
    if targets.contains(target) {
        targets
    } else {
        targets.push(target)
    }
}

/// The targets without `target`.
pub open spec fn without_target(targets: Seq<NotifyView>, target: NotifyView) -> Seq<NotifyView> {
    if targets.contains(target) {
        targets.remove(targets.index_of(target))
    } else {
        targets
    }
}

/// The registry after an order for the items was taken at `now`: the
/// order joins the records, which are then reconciled.
pub open spec fn order_taken(
    registry: RegistryView,
    items: Seq<Item>,
    is_priority: bool,
    now: Timestamp,
) -> RegistryView {
    reconciled(
        RegistryView { data: with_order(registry.data, items, is_priority, now), ..registry },
        now,
    )
}

/// The registry after the items were recorded as baked at `now`: they
/// join the stock, and the records are then reconciled.
pub open spec fn production_recorded(
    registry: RegistryView,
    items: Seq<Item>,
    now: Timestamp,
) -> RegistryView {
    reconciled(
        RegistryView {
            data: DataView { stock: restocked(registry.data.stock, items), ..registry.data },
            ..registry
        },
        now,
    )
}

/// The registry after the order with this number was handed over at
/// `now`, whatever it was before. Nothing else changes, and an unknown
/// number changes nothing.
pub open spec fn order_completed(registry: RegistryView, id: u32, now: Timestamp) -> RegistryView {
    match position_of(registry.data.orders, id) {
        Some(i) => RegistryView {
            data: DataView {
                orders: registry.data.orders.update(
                    i,
                    made_completed(registry.data.orders[i], now),
                ),
                ..registry.data
            },
            ..registry
        },
        None => registry,
    }
}

/// The registry after the order with this number was called off at `now`.
/// If the order was ready, its pieces go back to the stock and the records
/// are reconciled; if not, nothing else changes. An unknown number changes
/// nothing.
pub open spec fn order_cancelled(registry: RegistryView, id: u32, now: Timestamp) -> RegistryView {
    match position_of(registry.data.orders, id) {
        Some(i) => {
            let order = registry.data.orders[i];
            let orders = registry.data.orders.update(i, made_cancelled(order));
            if order.status == OrderStatus::Ready {
                reconciled(
                    RegistryView {
                        data: DataView {
                            orders,
                            stock: restocked(registry.data.stock, order.items),
                            ..registry.data
                        },
                        ..registry
                    },
                    now,
                )
            } else {
                RegistryView { data: DataView { orders, ..registry.data }, ..registry }
            }
        },
        None => registry,
    }
}

/// The registry after the priority of the order with this number was set
/// at `now`. If that changes the order, the records are reconciled; an
/// unknown number or the priority that the order has changes nothing.
pub open spec fn priority_set(
    registry: RegistryView,
    id: u32,
    is_priority: bool,
    now: Timestamp,
) -> RegistryView {
    match position_of(registry.data.orders, id) {
        Some(i) => {
            let order = registry.data.orders[i];
            if order.is_priority == is_priority {
                registry
            } else {
                reconciled(
                    RegistryView {
                        data: DataView {
                            orders: registry.data.orders.update(
                                i,
                                OrderView { is_priority, ..order },
                            ),
                            ..registry.data
                        },
                        ..registry
                    },
                    now,
                )
            }
        },
        None => registry,
    }
}

/// The registry with `target` among those to tell of the order with this
/// number.
pub open spec fn target_added(registry: RegistryView, id: u32, target: NotifyView) -> RegistryView {
    match position_of(registry.data.orders, id) {
        Some(i) => {
            let order = registry.data.orders[i];
            RegistryView {
                data: DataView {
                    orders: registry.data.orders.update(
                        i,
                        OrderView { notify: with_target(order.notify, target), ..order },
                    ),
                    ..registry.data
                },
                ..registry
            }
        },
        None => registry,
    }
}

/// The registry without `target` among those to tell of the order with
/// this number.
pub open spec fn target_removed(
    registry: RegistryView,
    id: u32,
    target: NotifyView,
) -> RegistryView {
    match position_of(registry.data.orders, id) {
        Some(i) => {
            let order = registry.data.orders[i];
            RegistryView {
                data: DataView {
                    orders: registry.data.orders.update(
                        i,
                        OrderView { notify: without_target(order.notify, target), ..order },
                    ),
                    ..registry.data
                },
                ..registry
            }
        },
        None => registry,
    }
}

/// The registry with `flavor` baked as `config` says. The orders stay as
/// they are until the records are next reconciled.
pub open spec fn config_set(
    registry: RegistryView,
    flavor: Flavor,
    config: FlavorConfig,
) -> RegistryView {
    RegistryView {
        data: DataView { configs: registry.data.configs.with(flavor, config), ..registry.data },
        ..registry
    }
}

/// No order has a higher number than the highest.
pub proof fn lemma_max_id(orders: Seq<OrderView>)
    ensures
        forall|i: int| 0 <= i < orders.len() ==> (#[trigger] orders[i]).id <= max_id(orders),
        max_id(orders) <= u32::MAX,
    decreases orders.len(),
{
    if orders.len() > 0 {
        lemma_max_id(orders.drop_last());
        assert forall|i: int| 0 <= i < orders.len() implies (#[trigger] orders[i]).id <= max_id(
            orders,
        ) by {
            if i < orders.len() - 1 {
                assert(orders.drop_last()[i] == orders[i]);
            }
        }
    }
}

/// Where `position_of` points there is the first order with the number;
/// where it points nowhere there is none.
pub proof fn lemma_position_of(orders: Seq<OrderView>, id: u32)
    ensures
        match position_of(orders, id) {
            Some(i) => {
                &&& 0 <= i < orders.len()
                &&& orders[i].id == id
                &&& forall|j: int| 0 <= j < i ==> (#[trigger] orders[j]).id != id
            },
            None => forall|j: int| 0 <= j < orders.len() ==> (#[trigger] orders[j]).id != id,
        },
    decreases orders.len(),
{
    if orders.len() > 0 {
        lemma_position_of(orders.drop_last(), id);
        match position_of(orders.drop_last(), id) {
            Some(i) => {
                assert(orders.drop_last()[i] == orders[i]);
                assert forall|j: int| 0 <= j < i implies (#[trigger] orders[j]).id != id by {
                    assert(orders.drop_last()[j] == orders[j]);
                }
            },
            None => {
                assert forall|j: int| 0 <= j < orders.len() - 1 implies (#[trigger] orders[j]).id
                    != id by {
                    assert(orders.drop_last()[j] == orders[j]);
                }
            },
        }
    }
}

/// Replacing one order changes what is claimed by the difference of the
/// two claims.
pub proof fn lemma_outstanding_update(
    orders: Seq<OrderView>,
    i: int,
    order: OrderView,
    flavor: Flavor,
)
    requires
        0 <= i < orders.len(),
    ensures
        outstanding(orders.update(i, order), flavor) + claim(orders[i], flavor) == outstanding(
            orders,
            flavor,
        ) + claim(order, flavor),
    decreases orders.len(),
{
    let changed = orders.update(i, order);
    if i == orders.len() - 1 {
        assert(changed.drop_last() =~= orders.drop_last());
    } else {
        assert(changed.drop_last() =~= orders.drop_last().update(i, order));
        lemma_outstanding_update(orders.drop_last(), i, order, flavor);
    }
}

/// A new order adds its claim to what is claimed.
pub proof fn lemma_outstanding_push(orders: Seq<OrderView>, order: OrderView, flavor: Flavor)
    ensures
        outstanding(orders.push(order), flavor) == outstanding(orders, flavor) + claim(
            order,
            flavor,
        ),
{
    assert(orders.push(order).drop_last() =~= orders);
}

/// The records stay well-formed when an order is taken.
pub proof fn lemma_with_order_well_formed(
    data: DataView,
    items: Seq<Item>,
    is_priority: bool,
    now: Timestamp,
)
    requires
        well_formed(data),
        can_take_order(data, items),
    ensures
        well_formed(with_order(data, items, is_priority, now)),
{
    let after = with_order(data, items, is_priority, now);
    let order = after.orders.last();
    lemma_max_id(data.orders);
    assert forall|flavor: Flavor| #[trigger] committed(after, flavor) < usize::MAX by {
        lemma_outstanding_push(data.orders, order, flavor);
        assert(committed(data, flavor) + demand(items, flavor) < usize::MAX);
    }
    assert forall|i: int| 0 <= i < after.orders.len() implies (#[trigger] after.orders[i]).notify.no_duplicates() by {
        if i < data.orders.len() {
            assert(after.orders[i] == data.orders[i]);
        }
    }
}

/// The records stay well-formed when pieces are added to the stock.
pub proof fn lemma_restocked_well_formed(data: DataView, items: Seq<Item>)
    requires
        well_formed(data),
        can_take_stock(data, items),
    ensures
        well_formed(DataView { stock: restocked(data.stock, items), ..data }),
        forall|flavor: Flavor|
            #![trigger restocked(data.stock, items).at(flavor)]
            restocked(data.stock, items).at(flavor) == data.stock.at(flavor) + demand(
                items,
                flavor,
            ),
{
    let after = DataView { stock: restocked(data.stock, items), ..data };
    assert forall|flavor: Flavor|
        #![trigger restocked(data.stock, items).at(flavor)]
        restocked(data.stock, items).at(flavor) == data.stock.at(flavor) + demand(
            items,
            flavor,
        ) by {
        assert(committed(data, flavor) + demand(items, flavor) < usize::MAX);
    }
    assert forall|flavor: Flavor| #[trigger] committed(after, flavor) < usize::MAX by {
        assert(committed(data, flavor) + demand(items, flavor) < usize::MAX);
        assert(restocked(data.stock, items).at(flavor) == data.stock.at(flavor) + demand(
            items,
            flavor,
        ));
    }
}

/// One order claims no more than all orders together.
pub proof fn lemma_claim_within(orders: Seq<OrderView>, i: int, flavor: Flavor)
    requires
        0 <= i < orders.len(),
    ensures
        claim(orders[i], flavor) <= outstanding(orders, flavor),
{
    lemma_outstanding_update(orders, i, made_cancelled(orders[i]), flavor);
}

/// The records stay well-formed when one order is replaced by one that
/// claims no more, keeps its number, names no target twice and, unless it
/// has been ready, carries no time of readiness. What is in stock or
/// claimed does not grow.
pub proof fn lemma_change_keeps_claims(data: DataView, i: int, order: OrderView)
    requires
        well_formed(data),
        0 <= i < data.orders.len(),
        order.id == data.orders[i].id,
        order.notify.no_duplicates(),
        order.status == OrderStatus::Waiting || order.status == OrderStatus::Cooking
            ==> order.ready_at.is_none(),
        forall|flavor: Flavor| #[trigger] claim(order, flavor) <= claim(data.orders[i], flavor),
    ensures
        well_formed(DataView { orders: data.orders.update(i, order), ..data }),
        forall|flavor: Flavor|
            #[trigger] committed(DataView { orders: data.orders.update(i, order), ..data }, flavor)
                + claim(data.orders[i], flavor) == committed(data, flavor) + claim(order, flavor),
{
    let after = DataView { orders: data.orders.update(i, order), ..data };
    assert forall|flavor: Flavor|
        #[trigger] committed(after, flavor) + claim(data.orders[i], flavor) == committed(
            data,
            flavor,
        ) + claim(order, flavor) by {
        lemma_outstanding_update(data.orders, i, order, flavor);
    }
    assert forall|flavor: Flavor| #[trigger] committed(after, flavor) < usize::MAX by {
        assert(committed(after, flavor) + claim(data.orders[i], flavor) == committed(data, flavor)
            + claim(order, flavor));
        assert(claim(order, flavor) <= claim(data.orders[i], flavor));
        assert(committed(data, flavor) < usize::MAX);
    }
    assert forall|a: int, b: int| 0 <= a < b < after.orders.len() implies after.orders[a].id
        < after.orders[b].id by {
        assert(after.orders[a].id == data.orders[a].id);
        assert(after.orders[b].id == data.orders[b].id);
    }
    assert forall|k: int|
        0 <= k < after.orders.len() && (after.orders[k].status == OrderStatus::Waiting
            || after.orders[k].status == OrderStatus::Cooking) implies (#[trigger] after.orders[k]).ready_at.is_none() by {
        if k != i {
            assert(after.orders[k] == data.orders[k]);
        }
    }
    assert forall|k: int| 0 <= k < after.orders.len() implies (#[trigger] after.orders[k]).notify.no_duplicates() by {
        if k != i {
            assert(after.orders[k] == data.orders[k]);
        }
    }
}

/// The highest number among the orders, or zero if there is none.
pub(crate) fn highest_id(orders: &Vec<Order>) -> (r: u32)
    ensures
        r == max_id(order_views(orders@)),
{
    let ghost views = order_views(orders@);
    let mut r: u32 = 0;
    let mut i: usize = 0;
    while i < orders.len()
        invariant
            i <= orders.len(),
            views == order_views(orders@),
            r == max_id(views.take(i as int)),
        decreases orders.len() - i,
    {
        proof {
            assert(views.take(i + 1).drop_last() =~= views.take(i as int));
        }
        if orders[i].id > r {
            r = orders[i].id;
        }
        i += 1;
    }
    proof {
        assert(views.take(i as int) =~= views);
    }
    r
}

/// The place of the first order with this number.
pub(crate) fn find_order(orders: &Vec<Order>, id: u32) -> (r: Option<usize>)
    ensures
        match r {
            Some(i) => position_of(order_views(orders@), id) == Some(i as int) && i < orders.len(),
            None => position_of(order_views(orders@), id).is_none(),
        },
{
    let ghost views = order_views(orders@);
    let mut i: usize = 0;
    while i < orders.len()
        invariant
            i <= orders.len(),
            views == order_views(orders@),
            position_of(views.take(i as int), id).is_none(),
        decreases orders.len() - i,
    {
        proof {
            assert(views.take(i + 1).drop_last() =~= views.take(i as int));
        }
        if orders[i].id == id {
            proof {
                lemma_position_of(views, id);
                lemma_position_of(views.take(i + 1), id);
                assert(views.take(i + 1)[i as int] == views[i as int]);
                match position_of(views, id) {
                    Some(p) => {
                        if p < i {
                            lemma_position_of(views.take(i as int), id);
                            assert(views.take(i as int)[p] == views[p]);
                        }
                    },
                    None => {},
                }
            }
            return Some(i);
        }
        i += 1;
    }
    proof {
        assert(views.take(i as int) =~= views);
    }
    None
}

/// What the items ask for of `flavor`, if that is no more than `room`.
pub(crate) fn demand_within(items: &Vec<Item>, flavor: Flavor, room: usize) -> (r: Option<usize>)
    ensures
        match r {
            Some(d) => d == demand(items@, flavor) && d <= room,
            None => demand(items@, flavor) > room,
        },
{
    let mut total: usize = 0;
    let mut j: usize = 0;
    while j < items.len()
        invariant
            j <= items.len(),
            total == demand(items@.take(j as int), flavor),
            total <= room,
        decreases items.len() - j,
    {
        proof {
            assert(items@.take(j + 1).drop_last() =~= items@.take(j as int));
            lemma_demand_take(items@, (j + 1) as nat, flavor);
        }
        if items[j].flavor == flavor {
            if items[j].quantity > room - total {
                return None;
            }
            total = total + items[j].quantity;
        }
        j += 1;
    }
    proof {
        assert(items@.take(j as int) =~= items@);
    }
    Some(total)
}

/// How many more pieces of `flavor` could be in stock or claimed, if
/// those that are can be counted at all.
fn room_for(data: &Data, flavor: Flavor) -> (r: Option<usize>)
    ensures
        match r {
            Some(room) => committed(data@, flavor) + room + 1 == usize::MAX,
            None => committed(data@, flavor) >= usize::MAX,
        },
{
    let ghost views = data@.orders;
    let stock: usize = *data.unallocated_stock.get(flavor);
    if stock == usize::MAX {
        return None;
    }
    let mut room: usize = usize::MAX - 1 - stock;
    let mut i: usize = 0;
    while i < data.orders.len()
        invariant
            i <= data.orders.len(),
            views == data@.orders,
            stock == data@.stock.at(flavor),
            stock + outstanding(views.take(i as int), flavor) + room + 1 == usize::MAX,
        decreases data.orders.len() - i,
    {
        proof {
            assert(views.take(i + 1).drop_last() =~= views.take(i as int));
            assert(views.take(i + 1).last() == data.orders[i as int]@);
            lemma_outstanding_prefix(views, (i + 1) as nat, flavor);
        }
        let order = &data.orders[i];
        if order.status == OrderStatus::Waiting || order.status == OrderStatus::Cooking
            || order.status == OrderStatus::Ready {
            match demand_within(&order.items, flavor, room) {
                Some(d) => {
                    room = room - d;
                },
                None => {
                    return None;
                },
            }
        }
        i += 1;
    }
    proof {
        assert(views.take(i as int) =~= views);
    }
    Some(room)
}

/// Whether what the items ask for of each flavor is within the room that
/// the records have left.
pub(crate) fn within_room(data: &Data, items: &Vec<Item>) -> (r: bool)
    ensures
        r == (forall|flavor: Flavor|
            #[trigger] committed(data@, flavor) + demand(items@, flavor) < usize::MAX),
{
    let flavors = Flavor::all();
    let mut k: usize = 0;
    while k < 3
        invariant
            k <= 3,
            flavors@ == seq![Flavor::Tsubuan, Flavor::Custard, Flavor::Kurikinton],
            forall|j: int|
                0 <= j < k ==> committed(data@, #[trigger] flavors[j]) + demand(
                    items@,
                    flavors[j],
                ) < usize::MAX,
        decreases 3 - k,
    {
        let flavor = flavors[k];
        let fits = match room_for(data, flavor) {
            Some(room) => demand_within(items, flavor, room).is_some(),
            None => false,
        };
        if !fits {
            assert(!(committed(data@, flavor) + demand(items@, flavor) < usize::MAX));
            return false;
        }
        k += 1;
    }
    proof {
        assert forall|flavor: Flavor|
            #[trigger] committed(data@, flavor) + demand(items@, flavor) < usize::MAX by {
            assert(flavor == flavors[0] || flavor == flavors[1] || flavor == flavors[2]);
        }
    }
    true
}

/// Whether no target occurs twice.
fn no_repeats(list: &Vec<Notify>) -> (r: bool)
    ensures
        r == notify_views(list@).no_duplicates(),
{
    let ghost views = notify_views(list@);
    let mut a: usize = 0;
    while a < list.len()
        invariant
            a <= list.len(),
            views == notify_views(list@),
            forall|i: int, j: int| 0 <= i < a && i < j < list.len() ==> views[i] != views[j],
        decreases list.len() - a,
    {
        let mut b: usize = a + 1;
        while b < list.len()
            invariant
                a < b <= list.len(),
                views == notify_views(list@),
                forall|j: int| a < j < b ==> views[a as int] != views[j],
            decreases list.len() - b,
        {
            if list[a] == list[b] {
                assert(views[a as int] == views[b as int]);
                return false;
            }
            b += 1;
        }
        a += 1;
    }
    true
}

/// Whether the records are well-formed.
pub(crate) fn records_fit(data: &Data) -> (r: bool)
    ensures
        r == well_formed(data@),
{
    let ghost views = data@.orders;
    let mut i: usize = 0;
    while i < data.orders.len()
        invariant
            i <= data.orders.len(),
            views == data@.orders,
            forall|a: int, b: int| 0 <= a < b < i ==> views[a].id < views[b].id,
            forall|a: int|
                0 <= a < i && (views[a].status == OrderStatus::Waiting || views[a].status
                    == OrderStatus::Cooking) ==> (#[trigger] views[a]).ready_at.is_none(),
            forall|a: int| 0 <= a < i ==> (#[trigger] views[a]).notify.no_duplicates(),
        decreases data.orders.len() - i,
    {
        let order = &data.orders[i];
        assert(order@ == views[i as int]);
        if i > 0 && data.orders[i - 1].id >= order.id {
            assert(!(views[i - 1].id < views[i as int].id));
            return false;
        }
        if (order.status == OrderStatus::Waiting || order.status == OrderStatus::Cooking)
            && order.ready_at.is_some() {
            return false;
        }
        if !no_repeats(&order.notify) {
            return false;
        }
        proof {
            assert forall|a: int, b: int| 0 <= a < b < i + 1 implies views[a].id < views[b].id by {
                if b == i && a < i - 1 {
                    assert(views[a].id < views[i - 1].id);
                }
            }
        }
        i += 1;
    }
    let flavors = Flavor::all();
    let mut k: usize = 0;
    while k < 3
        invariant
            k <= 3,
            flavors@ == seq![Flavor::Tsubuan, Flavor::Custard, Flavor::Kurikinton],
            forall|j: int| 0 <= j < k ==> committed(data@, #[trigger] flavors[j]) < usize::MAX,
        decreases 3 - k,
    {
        if room_for(data, flavors[k]).is_none() {
            return false;
        }
        k += 1;
    }
    proof {
        assert forall|flavor: Flavor| #[trigger] committed(data@, flavor) < usize::MAX by {
            assert(flavor == flavors[0] || flavor == flavors[1] || flavor == flavors[2]);
        }
    }
    true
}

/// The place of `target` among the targets, if it is there.
pub(crate) fn find_target(list: &Vec<Notify>, target: &Notify) -> (r: Option<usize>)
    ensures
        match r {
            Some(j) => j < list.len() && notify_views(list@)[j as int] == target@,
            None => !notify_views(list@).contains(target@),
        },
{
    let mut j: usize = 0;
    while j < list.len()
        invariant
            j <= list.len(),
            forall|k: int| 0 <= k < j ==> (#[trigger] list[k])@ != target@,
        decreases list.len() - j,
    {
        if list[j] == *target {
            return Some(j);
        }
        j += 1;
    }
    proof {
        assert forall|k: int| 0 <= k < notify_views(list@).len() implies notify_views(list@)[k]
            != target@ by {
            assert(list[k]@ != target@);
        }
    }
    None
}

/// The stock as a list: each flavor of which there is any, in menu order.
pub(crate) fn unallocated_items(stock: &PerFlavor<usize>) -> (r: Vec<Item>)
    ensures
        r@ == stock_items(*stock),
{
    let mut r: Vec<Item> = Vec::new();
    if stock.tsubuan > 0 {
        r.push(Item { flavor: Flavor::Tsubuan, quantity: stock.tsubuan });
    }
    if stock.custard > 0 {
        r.push(Item { flavor: Flavor::Custard, quantity: stock.custard });
    }
    if stock.kurikinton > 0 {
        r.push(Item { flavor: Flavor::Kurikinton, quantity: stock.kurikinton });
    }
    proof {
        assert(r@ =~= stock_items(*stock));
    }
    r
}

} // verus!
