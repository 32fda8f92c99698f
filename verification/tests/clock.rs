use taiyaq_backend::api::handler::{create_order, update_order_priority, update_production};
use taiyaq_backend::api::model::{
    CreateOrderRequest, UpdateOrderPriorityRequest, UpdateProductionRequest,
};
use taiyaq_backend::app::AppRegistry;
use taiyaq_backend::data::{Flavor, Item, OrderStatus, Timestamp};

fn seconds_now() -> i64 {
    chrono::Utc::now().timestamp()
}

fn is_between(t: Timestamp, from: i64, to: i64) -> bool {
    from <= t.secs && t.secs <= to && t.nanos < 2_000_000_000
}

#[test]
fn orders_are_stamped_with_the_time_of_the_clock() {
    let mut registry = AppRegistry::new();
    let from = seconds_now();
    let order = registry.create_order(vec![Item { flavor: Flavor::Tsubuan, quantity: 2 }], true);
    let to = seconds_now();
    assert_eq!(order.id, 1);
    assert!(order.is_priority);
    assert_eq!(order.status, OrderStatus::Cooking);
    assert!(is_between(order.ordered_at, from, to));

    let (promoted, left) =
        registry.update_production(vec![Item { flavor: Flavor::Tsubuan, quantity: 2 }]);
    let later = seconds_now();
    assert_eq!(promoted, vec![1]);
    assert!(left.is_empty());
    assert!(is_between(registry.data().orders[0].ready_at.unwrap(), to, later));

    let done = registry.complete_order(1).unwrap();
    assert!(is_between(done.completed_at.unwrap(), later, seconds_now()));
    assert_eq!(done.status, OrderStatus::Completed);
}

#[test]
fn cancelling_and_priority_reconcile_at_the_time_of_the_clock() {
    let mut registry = AppRegistry::new();
    registry.update_production_at(
        vec![Item { flavor: Flavor::Custard, quantity: 3 }],
        Timestamp { secs: 5, nanos: 0 },
    );
    registry.create_order_at(
        vec![Item { flavor: Flavor::Custard, quantity: 3 }],
        false,
        Timestamp { secs: 6, nanos: 0 },
    );
    registry.create_order_at(
        vec![Item { flavor: Flavor::Custard, quantity: 3 }],
        false,
        Timestamp { secs: 7, nanos: 0 },
    );
    let from = seconds_now();
    let cancelled = registry.cancel_order(1).unwrap();
    assert_eq!(cancelled.status, OrderStatus::Cancelled);
    assert_eq!(registry.data().orders[1].status, OrderStatus::Ready);
    assert!(is_between(registry.data().orders[1].ready_at.unwrap(), from, seconds_now()));

    registry.create_order_at(
        vec![Item { flavor: Flavor::Tsubuan, quantity: 1 }],
        false,
        Timestamp { secs: 8, nanos: 0 },
    );
    let raised = registry.update_order_priority(3, true).unwrap();
    assert!(raised.is_priority);
    assert_eq!(raised.status, OrderStatus::Cooking);
}

#[test]
fn requests_are_carried_out_as_asked() {
    let mut registry = AppRegistry::new();
    let order = create_order(
        &mut registry,
        CreateOrderRequest {
            items: vec![Item { flavor: Flavor::Tsubuan, quantity: 2 }],
            is_priority: None,
        },
    );
    assert!(!order.is_priority);
    let order = create_order(
        &mut registry,
        CreateOrderRequest {
            items: vec![Item { flavor: Flavor::Tsubuan, quantity: 9 }],
            is_priority: Some(true),
        },
    );
    assert!(order.is_priority);
    assert_eq!(order.id, 2);

    let response = update_production(
        &mut registry,
        UpdateProductionRequest { items: vec![Item { flavor: Flavor::Tsubuan, quantity: 10 }] },
    );
    assert_eq!(response.newly_ready_orders, vec![2]);
    assert_eq!(response.unallocated_items, vec![Item { flavor: Flavor::Tsubuan, quantity: 1 }]);

    let lowered =
        update_order_priority(&mut registry, 2, UpdateOrderPriorityRequest { is_priority: false })
            .unwrap();
    assert!(!lowered.is_priority);
    assert!(update_order_priority(
        &mut registry,
        9,
        UpdateOrderPriorityRequest { is_priority: false }
    )
    .is_none());
}
