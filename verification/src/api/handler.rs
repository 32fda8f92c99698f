//! The answers to the requests, worked out from the registry.

use vstd::prelude::*;
use crate::api::model::{
    CreateOrderRequest, DisplayOrder, DisplayOrdersResponse, StaffOrdersQuery,
    UpdateOrderPriorityRequest, UpdateProductionRequest, UpdateProductionResponse,
};
use crate::app::AppRegistry;
use crate::changes::{
    can_take_order, can_take_stock, order_taken, position_of, priority_set, production_recorded,
    restocked, stock_items,
};
use crate::data::{DataView, Order, OrderStatus, OrderView, Timestamp, order_views};
use crate::reconcile::reconcile;

verus! {

/// The numbers of the orders in this state, in the sequence of the
/// records.
pub open spec fn ids_with_status(orders: Seq<OrderView>, status: OrderStatus) -> Seq<u32>
    decreases orders.len(),
{
    if orders.len() == 0 {
        Seq::empty()
    } else {
        let rest = ids_with_status(orders.drop_last(), status);
        if orders.last().status == status {
            rest.push(orders.last().id)
        } else {
            rest
        }
    }
}

/// The numbers shown.
pub open spec fn display_ids(list: Seq<DisplayOrder>) -> Seq<u32> {
    list.map_values(|o: DisplayOrder| o.id)
}

/// The orders in one of these states, in the sequence of the records;
/// where no state is named, all orders.
pub open spec fn orders_with_status(orders: Seq<OrderView>, wanted: Seq<OrderStatus>) -> Seq<
    OrderView,
>
    decreases orders.len(),
{
    if orders.len() == 0 {
        Seq::empty()
    } else {
        let rest = orders_with_status(orders.drop_last(), wanted);
        if wanted.len() == 0 || wanted.contains(orders.last().status) {
            rest.push(orders.last())
        } else {
            rest
        }
    }
}

/// The orders in this state as the display shows them.
fn list_with_status(orders: &Vec<Order>, status: OrderStatus) -> (r: Vec<DisplayOrder>)
    ensures
        display_ids(r@) == ids_with_status(order_views(orders@), status),
{
    let ghost views = order_views(orders@);
    let mut r: Vec<DisplayOrder> = Vec::new();
    let mut i: usize = 0;
    while i < orders.len()
        invariant
            i <= orders.len(),
            views == order_views(orders@),
            display_ids(r@) == ids_with_status(views.take(i as int), status),
        decreases orders.len() - i,
    {
        proof {
            assert(views.take(i + 1).drop_last() =~= views.take(i as int));
            assert(views.take(i + 1).last() == orders[i as int]@);
        }
        if orders[i].status == status {
            let ghost before = r@;
            r.push(DisplayOrder { id: orders[i].id });
            proof {
                assert(display_ids(r@) =~= display_ids(before).push(orders[i as int].id));
            }
        }
        i += 1;
    }
    proof {
        assert(views.take(i as int) =~= views);
    }
    r
}

/// What the public display shows.
pub fn get_display_orders(registry: &AppRegistry) -> (r: DisplayOrdersResponse)
    ensures
        display_ids(r.ready@) == ids_with_status(registry@.data.orders, OrderStatus::Ready),
        display_ids(r.cooking@) == ids_with_status(registry@.data.orders, OrderStatus::Cooking),
        display_ids(r.waiting@) == ids_with_status(registry@.data.orders, OrderStatus::Waiting),
{
    let orders = &registry.data().orders;
    DisplayOrdersResponse {
        ready: list_with_status(orders, OrderStatus::Ready),
        cooking: list_with_status(orders, OrderStatus::Cooking),
        waiting: list_with_status(orders, OrderStatus::Waiting),
    }
}

/// Whether `status` is among the states asked for.
fn has_status(wanted: &Vec<OrderStatus>, status: OrderStatus) -> (r: bool)
    ensures
        r == wanted@.contains(status),
{
    let mut k: usize = 0;
    while k < wanted.len()
        invariant
            k <= wanted.len(),
            forall|j: int| 0 <= j < k ==> wanted@[j] != status,
        decreases wanted.len() - k,
    {
        if wanted[k] == status {
            return true;
        }
        k += 1;
    }
    false
}

/// The orders that the staff asked to see.
pub fn get_staff_orders(registry: &AppRegistry, query: &StaffOrdersQuery) -> (r: Vec<Order>)
    ensures
        order_views(r@) == orders_with_status(registry@.data.orders, query.status@),
{
    let orders = &registry.data().orders;
    let ghost views = order_views(orders@);
    let mut r: Vec<Order> = Vec::new();
    let mut i: usize = 0;
    while i < orders.len()
        invariant
            i <= orders.len(),
            views == order_views(orders@),
            order_views(r@) == orders_with_status(views.take(i as int), query.status@),
        decreases orders.len() - i,
    {
        proof {
            assert(views.take(i + 1).drop_last() =~= views.take(i as int));
            assert(views.take(i + 1).last() == orders[i as int]@);
        }
        if query.status.len() == 0 || has_status(&query.status, orders[i].status) {
            let ghost before = r@;
            let order = orders[i].clone();
            r.push(order);
            proof {
                assert(order_views(r@) =~= order_views(before).push(orders[i as int]@));
            }
        }
        i += 1;
    }
    proof {
        assert(views.take(i as int) =~= views);
    }
    r
}

/// The priority that was asked for: none where nothing was said.
pub open spec fn priority_asked(is_priority: Option<bool>) -> bool {
    match is_priority {
        Some(is_priority) => is_priority,
        None => false,
    }
}

/// Takes the order that was asked for, at the time on the system clock.
/// An order for which nothing is said of priority has none.
pub fn create_order(registry: &mut AppRegistry, payload: CreateOrderRequest) -> (order: Order)
    requires
        can_take_order(old(registry)@.data, payload.items@),
    ensures
        exists|now: Timestamp|
            {
                &&& final(registry)@ == #[trigger] order_taken(
                    old(registry)@,
                    payload.items@,
                    priority_asked(payload.is_priority),
                    now,
                )
                &&& order@ == final(registry)@.data.orders.last()
            },
{
    let is_priority = match payload.is_priority {
        Some(is_priority) => is_priority,
        None => false,
    };
    let order = registry.create_order(payload.items, is_priority);
    proof {
        let now = choose|now: Timestamp|
            {
                &&& registry@ == #[trigger] order_taken(
                    old(registry)@,
                    payload.items@,
                    is_priority,
                    now,
                )
                &&& order@ == registry@.data.orders.last()
            };
        assert(registry@ == order_taken(
            old(registry)@,
            payload.items@,
            priority_asked(payload.is_priority),
            now,
        ));
    }
    order
}

/// Records what was baked, at the time on the system clock, and says
/// which orders became ready and what stock is left.
pub fn update_production(registry: &mut AppRegistry, payload: UpdateProductionRequest) -> (r:
    UpdateProductionResponse)
    requires
        can_take_stock(old(registry)@.data, payload.items@),
    ensures
        exists|now: Timestamp|
            {
                &&& final(registry)@ == #[trigger] production_recorded(
                    old(registry)@,
                    payload.items@,
                    now,
                )
                &&& r.newly_ready_orders@ == reconcile(
                    DataView {
                        stock: restocked(old(registry)@.data.stock, payload.items@),
                        ..old(registry)@.data
                    },
                    now,
                ).promoted
            },
        r.unallocated_items@ == stock_items(final(registry)@.data.stock),
{
    let (newly_ready_orders, unallocated_items) = registry.update_production(payload.items);
    UpdateProductionResponse { newly_ready_orders, unallocated_items }
}

/// Gives the order with this number the priority that was asked for.
pub fn update_order_priority(
    registry: &mut AppRegistry,
    id: u32,
    payload: UpdateOrderPriorityRequest,
) -> (r: Option<Order>)
    ensures
        exists|now: Timestamp|
            final(registry)@ == #[trigger] priority_set(
                old(registry)@,
                id,
                payload.is_priority,
                now,
            ),
        match position_of(old(registry)@.data.orders, id) {
            Some(i) => r.is_some() && r.unwrap()@ == final(registry)@.data.orders[i],
            None => r.is_none(),
        },
{
    registry.update_order_priority(id, payload.is_priority)
}

} // verus!
