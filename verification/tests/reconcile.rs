use taiyaq_backend::app::AppRegistry;
use taiyaq_backend::data::{
    Data, Flavor, FlavorConfig, Item, Notify, Order, OrderStatus, PerFlavor, Timestamp,
};

fn at(secs: i64) -> Timestamp {
    Timestamp { secs, nanos: 0 }
}

fn item(flavor: Flavor, quantity: usize) -> Item {
    Item { flavor, quantity }
}

fn order(id: u32, items: Vec<Item>, status: OrderStatus, secs: i64, is_priority: bool) -> Order {
    Order {
        id,
        items,
        status,
        ordered_at: at(secs),
        ready_at: None,
        completed_at: None,
        notify: Vec::new(),
        is_priority,
    }
}

fn records(orders: Vec<Order>, tsubuan: usize, custard: usize, kurikinton: usize) -> Data {
    let mut data = Data::default();
    data.orders = orders;
    data.unallocated_stock = PerFlavor { tsubuan, custard, kurikinton };
    data
}

fn status_of(registry: &AppRegistry, index: usize) -> OrderStatus {
    registry.data().orders[index].status
}

#[test]
fn new_registry_is_an_opening_stall() {
    let registry = AppRegistry::new();
    let data = registry.data();
    assert!(data.orders.is_empty());
    assert_eq!(data.unallocated_stock.tsubuan, 0);
    assert_eq!(data.unallocated_stock.custard, 0);
    assert_eq!(data.unallocated_stock.kurikinton, 0);
    assert_eq!(data.flavor_configs.tsubuan.cooking_time_minutes, 15);
    assert_eq!(data.flavor_configs.tsubuan.quantity_per_batch, 9);
    assert_eq!(data.flavor_configs.custard.cooking_time_minutes, 15);
    assert_eq!(data.flavor_configs.custard.quantity_per_batch, 9);
    assert_eq!(data.flavor_configs.kurikinton.cooking_time_minutes, 15);
    assert_eq!(data.flavor_configs.kurikinton.quantity_per_batch, 2);
}

#[test]
fn first_order_is_cooking_then_ready_after_a_batch() {
    let mut registry = AppRegistry::new();
    let items = vec![item(Flavor::Tsubuan, 2)];
    assert!(registry.can_create_order(&items));
    let created = registry.create_order_at(items, false, at(100));
    assert_eq!(created.id, 1);
    assert_eq!(created.status, OrderStatus::Cooking);
    assert_eq!(created.ordered_at, at(100));
    assert_eq!(created.ready_at, None);

    let production = vec![item(Flavor::Tsubuan, 9)];
    assert!(registry.can_update_production(&production));
    let (promoted, left) = registry.update_production_at(production, at(200));
    assert_eq!(promoted, vec![1]);
    assert_eq!(left, vec![item(Flavor::Tsubuan, 7)]);
    assert_eq!(status_of(&registry, 0), OrderStatus::Ready);
    assert_eq!(registry.data().orders[0].ready_at, Some(at(200)));
    assert_eq!(registry.data().unallocated_stock.tsubuan, 7);

    let waits = registry.get_current_wait_times();
    assert_eq!(waits.wait_times.tsubuan, Some(0));
}

#[test]
fn order_beyond_one_batch_stays_waiting() {
    let mut registry = AppRegistry::new();
    let created = registry.create_order_at(vec![item(Flavor::Tsubuan, 15)], false, at(100));
    assert_eq!(created.status, OrderStatus::Waiting);
    assert_eq!(status_of(&registry, 0), OrderStatus::Waiting);
}

#[test]
fn order_of_exactly_one_batch_is_cooking() {
    let mut registry = AppRegistry::new();
    let created = registry.create_order_at(vec![item(Flavor::Tsubuan, 9)], false, at(100));
    assert_eq!(created.status, OrderStatus::Cooking);
    let next = registry.create_order_at(vec![item(Flavor::Tsubuan, 1)], false, at(101));
    assert_eq!(next.status, OrderStatus::Waiting);
    assert_eq!(status_of(&registry, 0), OrderStatus::Cooking);
}

#[test]
fn order_without_items_is_ready_at_once() {
    let mut registry = AppRegistry::new();
    let created = registry.create_order_at(Vec::new(), false, at(100));
    assert_eq!(created.status, OrderStatus::Ready);
    let data = records(vec![order(1, Vec::new(), OrderStatus::Waiting, 1, false)], 0, 0, 0);
    assert!(AppRegistry::can_fulfill(&data.orders[0], &data.unallocated_stock));
}

#[test]
fn priority_order_is_served_before_an_earlier_order() {
    let data = records(
        vec![
            order(1, vec![item(Flavor::Tsubuan, 5)], OrderStatus::Waiting, 10, false),
            order(2, vec![item(Flavor::Tsubuan, 5)], OrderStatus::Waiting, 20, true),
        ],
        5,
        0,
        0,
    );
    let mut registry = AppRegistry::from_data(data).unwrap();
    let promoted = registry.update_order_statuses(at(30));
    assert_eq!(promoted, vec![2]);
    assert_eq!(status_of(&registry, 1), OrderStatus::Ready);
    assert_eq!(registry.data().orders[1].ready_at, Some(at(30)));
    assert_eq!(status_of(&registry, 0), OrderStatus::Cooking);
    assert_eq!(registry.data().unallocated_stock.tsubuan, 0);
}

#[test]
fn earlier_order_is_served_first_without_priority() {
    let data = records(
        vec![
            order(1, vec![item(Flavor::Custard, 5)], OrderStatus::Waiting, 20, false),
            order(2, vec![item(Flavor::Custard, 5)], OrderStatus::Waiting, 10, false),
        ],
        5,
        5,
        0,
    );
    let mut registry = AppRegistry::from_data(data).unwrap();
    let promoted = registry.update_order_statuses(at(30));
    assert_eq!(promoted, vec![2]);
    assert_eq!(status_of(&registry, 0), OrderStatus::Cooking);
    assert_eq!(status_of(&registry, 1), OrderStatus::Ready);
    assert_eq!(registry.data().unallocated_stock.custard, 0);
    assert_eq!(registry.data().unallocated_stock.tsubuan, 5);
}

#[test]
fn orders_placed_together_are_served_by_number() {
    let data = records(
        vec![
            order(3, vec![item(Flavor::Tsubuan, 4)], OrderStatus::Waiting, 10, false),
            order(7, vec![item(Flavor::Tsubuan, 4)], OrderStatus::Waiting, 10, false),
            order(9, vec![item(Flavor::Tsubuan, 4)], OrderStatus::Waiting, 10, false),
        ],
        8,
        0,
        0,
    );
    let mut registry = AppRegistry::from_data(data).unwrap();
    let promoted = registry.update_order_statuses(at(30));
    assert_eq!(promoted, vec![3, 7]);
    assert_eq!(status_of(&registry, 2), OrderStatus::Cooking);
    assert_eq!(registry.data().unallocated_stock.tsubuan, 0);
}

#[test]
fn nanoseconds_decide_between_orders_of_one_second() {
    let mut first = order(1, vec![item(Flavor::Tsubuan, 3)], OrderStatus::Waiting, 10, false);
    first.ordered_at = Timestamp { secs: 10, nanos: 500 };
    let mut second = order(2, vec![item(Flavor::Tsubuan, 3)], OrderStatus::Waiting, 10, false);
    second.ordered_at = Timestamp { secs: 10, nanos: 499 };
    let mut registry = AppRegistry::from_data(records(vec![first, second], 3, 0, 0)).unwrap();
    assert_eq!(registry.update_order_statuses(at(30)), vec![2]);
}

#[test]
fn a_later_order_may_be_served_past_one_that_is_not_covered() {
    let data = records(
        vec![
            order(
                1,
                vec![item(Flavor::Tsubuan, 5), item(Flavor::Custard, 5)],
                OrderStatus::Waiting,
                10,
                false,
            ),
            order(2, vec![item(Flavor::Tsubuan, 5)], OrderStatus::Waiting, 20, false),
        ],
        5,
        0,
        0,
    );
    let mut registry = AppRegistry::from_data(data).unwrap();
    assert_eq!(registry.update_order_statuses(at(30)), vec![2]);
    assert_eq!(status_of(&registry, 0), OrderStatus::Cooking);
    assert_eq!(registry.data().unallocated_stock.tsubuan, 0);
}

#[test]
fn demand_of_earlier_orders_counts_against_the_next_batch() {
    let data = records(
        vec![
            order(1, vec![item(Flavor::Tsubuan, 6)], OrderStatus::Waiting, 10, false),
            order(2, vec![item(Flavor::Tsubuan, 6)], OrderStatus::Waiting, 20, false),
            order(3, vec![item(Flavor::Custard, 9)], OrderStatus::Waiting, 30, false),
            order(4, vec![item(Flavor::Kurikinton, 3)], OrderStatus::Waiting, 40, false),
        ],
        2,
        0,
        0,
    );
    let mut registry = AppRegistry::from_data(data).unwrap();
    assert!(registry.update_order_statuses(at(50)).is_empty());
    assert_eq!(status_of(&registry, 0), OrderStatus::Cooking);
    assert_eq!(status_of(&registry, 1), OrderStatus::Waiting);
    assert_eq!(status_of(&registry, 2), OrderStatus::Cooking);
    assert_eq!(status_of(&registry, 3), OrderStatus::Waiting);
    assert_eq!(registry.data().unallocated_stock.tsubuan, 2);
}

#[test]
fn an_item_that_stock_covers_does_not_keep_an_order_from_cooking() {
    let data = records(
        vec![order(
            1,
            vec![item(Flavor::Tsubuan, 2), item(Flavor::Custard, 4)],
            OrderStatus::Waiting,
            10,
            false,
        )],
        5,
        0,
        0,
    );
    let mut registry = AppRegistry::from_data(data).unwrap();
    assert!(registry.update_order_statuses(at(50)).is_empty());
    assert_eq!(status_of(&registry, 0), OrderStatus::Cooking);
}

#[test]
fn a_flavor_that_is_not_baked_keeps_an_order_waiting() {
    let mut registry = AppRegistry::new();
    registry.set_flavor_config(
        Flavor::Custard,
        FlavorConfig { cooking_time_minutes: 15, quantity_per_batch: 0 },
    );
    let created = registry.create_order_at(vec![item(Flavor::Custard, 1)], false, at(1));
    assert_eq!(created.status, OrderStatus::Waiting);
}

#[test]
fn cooking_is_worked_out_afresh() {
    let data = records(
        vec![order(1, vec![item(Flavor::Tsubuan, 15)], OrderStatus::Cooking, 10, false)],
        0,
        0,
        0,
    );
    let mut registry = AppRegistry::from_data(data).unwrap();
    assert!(registry.update_order_statuses(at(50)).is_empty());
    assert_eq!(status_of(&registry, 0), OrderStatus::Waiting);
}

#[test]
fn reconciling_twice_changes_nothing_more() {
    let data = records(
        vec![
            order(1, vec![item(Flavor::Tsubuan, 6)], OrderStatus::Waiting, 10, false),
            order(2, vec![item(Flavor::Tsubuan, 3)], OrderStatus::Cooking, 20, true),
            order(3, vec![item(Flavor::Custard, 30)], OrderStatus::Waiting, 30, false),
            order(4, vec![item(Flavor::Tsubuan, 1)], OrderStatus::Completed, 5, false),
        ],
        4,
        1,
        0,
    );
    let mut registry = AppRegistry::from_data(data).unwrap();
    assert_eq!(registry.update_order_statuses(at(50)), vec![2]);
    let statuses: Vec<OrderStatus> = registry.data().orders.iter().map(|o| o.status).collect();
    assert_eq!(
        statuses,
        vec![
            OrderStatus::Cooking,
            OrderStatus::Ready,
            OrderStatus::Waiting,
            OrderStatus::Completed
        ]
    );
    let stock = registry.data().unallocated_stock;
    assert_eq!((stock.tsubuan, stock.custard, stock.kurikinton), (1, 1, 0));

    assert!(registry.update_order_statuses(at(60)).is_empty());
    let again: Vec<OrderStatus> = registry.data().orders.iter().map(|o| o.status).collect();
    assert_eq!(again, statuses);
    let stock = registry.data().unallocated_stock;
    assert_eq!((stock.tsubuan, stock.custard, stock.kurikinton), (1, 1, 0));
    assert_eq!(registry.data().orders[1].ready_at, Some(at(50)));
}

#[test]
fn stock_is_conserved_over_a_batch() {
    let data = records(
        vec![
            order(1, vec![item(Flavor::Tsubuan, 4)], OrderStatus::Waiting, 10, false),
            order(2, vec![item(Flavor::Tsubuan, 4)], OrderStatus::Waiting, 20, false),
            order(3, vec![item(Flavor::Tsubuan, 4)], OrderStatus::Waiting, 30, false),
        ],
        1,
        0,
        0,
    );
    let mut registry = AppRegistry::from_data(data).unwrap();
    let (promoted, left) = registry.update_production_at(vec![item(Flavor::Tsubuan, 9)], at(40));
    assert_eq!(promoted, vec![1, 2]);
    assert_eq!(left, vec![item(Flavor::Tsubuan, 2)]);
    assert_eq!(1 + 9, 4 + 4 + registry.data().unallocated_stock.tsubuan);
}

#[test]
fn an_order_with_two_items_of_a_flavor_never_takes_stock_below_zero() {
    let data = records(
        vec![order(
            1,
            vec![item(Flavor::Tsubuan, 3), item(Flavor::Tsubuan, 3)],
            OrderStatus::Waiting,
            10,
            false,
        )],
        4,
        0,
        0,
    );
    let mut registry = AppRegistry::from_data(data).unwrap();
    assert_eq!(registry.update_order_statuses(at(50)), vec![1]);
    assert_eq!(registry.data().unallocated_stock.tsubuan, 0);
}

#[test]
fn production_of_several_flavors_is_listed_in_menu_order() {
    let mut registry = AppRegistry::new();
    let (promoted, left) = registry.update_production_at(
        vec![
            item(Flavor::Kurikinton, 2),
            item(Flavor::Tsubuan, 4),
            item(Flavor::Kurikinton, 1),
        ],
        at(1),
    );
    assert!(promoted.is_empty());
    assert_eq!(left, vec![item(Flavor::Tsubuan, 4), item(Flavor::Kurikinton, 3)]);
}

#[test]
fn cancelling_a_ready_order_returns_its_pieces() {
    let mut ready = order(1, vec![item(Flavor::Tsubuan, 3)], OrderStatus::Ready, 10, false);
    ready.ready_at = Some(at(15));
    let data = records(
        vec![ready, order(2, vec![item(Flavor::Tsubuan, 3)], OrderStatus::Waiting, 20, false)],
        0,
        0,
        0,
    );
    let mut registry = AppRegistry::from_data(data).unwrap();
    let cancelled = registry.cancel_order_at(1, at(30)).unwrap();
    assert_eq!(cancelled.id, 1);
    assert_eq!(cancelled.status, OrderStatus::Cancelled);
    assert_eq!(cancelled.ready_at, Some(at(15)));
    assert_eq!(status_of(&registry, 1), OrderStatus::Ready);
    assert_eq!(registry.data().orders[1].ready_at, Some(at(30)));
    assert_eq!(registry.data().unallocated_stock.tsubuan, 0);
}

#[test]
fn cancelling_a_ready_order_fills_the_stock() {
    let mut ready = order(1, vec![item(Flavor::Tsubuan, 3)], OrderStatus::Ready, 10, false);
    ready.ready_at = Some(at(15));
    let mut registry = AppRegistry::from_data(records(vec![ready], 0, 0, 0)).unwrap();
    registry.cancel_order_at(1, at(30)).unwrap();
    assert_eq!(registry.data().unallocated_stock.tsubuan, 3);
    assert_eq!(status_of(&registry, 0), OrderStatus::Cancelled);
}

#[test]
fn cancelling_a_waiting_order_leaves_the_stock() {
    let data = records(
        vec![
            order(1, vec![item(Flavor::Tsubuan, 30)], OrderStatus::Waiting, 10, false),
            order(2, vec![item(Flavor::Tsubuan, 5)], OrderStatus::Waiting, 20, false),
        ],
        4,
        0,
        0,
    );
    let mut registry = AppRegistry::from_data(data).unwrap();
    let cancelled = registry.cancel_order_at(1, at(30)).unwrap();
    assert_eq!(cancelled.status, OrderStatus::Cancelled);
    assert_eq!(registry.data().unallocated_stock.tsubuan, 4);
    assert_eq!(status_of(&registry, 1), OrderStatus::Waiting);
}

#[test]
fn unknown_numbers_give_nothing() {
    let mut registry = AppRegistry::new();
    registry.create_order_at(vec![item(Flavor::Tsubuan, 1)], false, at(1));
    assert!(registry.complete_order_at(5, at(2)).is_none());
    assert!(registry.cancel_order_at(5, at(2)).is_none());
    assert!(registry.update_order_priority_at(5, true, at(2)).is_none());
    assert!(registry.get_order_details(5).is_none());
    let target = Notify::Line { user_id: String::from("u") };
    assert!(registry.cancel_notification(5, &target).is_none());
    assert!(registry.add_notification(5, target).is_none());
    assert_eq!(registry.data().orders.len(), 1);
    assert_eq!(status_of(&registry, 0), OrderStatus::Cooking);
}

#[test]
fn completing_works_from_any_state_and_moves_no_stock() {
    let mut registry = AppRegistry::new();
    registry.create_order_at(vec![item(Flavor::Tsubuan, 1)], false, at(1));
    let done = registry.complete_order_at(1, at(7)).unwrap();
    assert_eq!(done.status, OrderStatus::Completed);
    assert_eq!(done.completed_at, Some(at(7)));
    assert_eq!(done.ready_at, None);
    assert_eq!(registry.data().unallocated_stock.tsubuan, 0);
    assert_eq!(status_of(&registry, 0), OrderStatus::Completed);
}

#[test]
fn priority_set_again_does_nothing() {
    let data = records(
        vec![order(1, vec![item(Flavor::Tsubuan, 2)], OrderStatus::Waiting, 10, true)],
        5,
        0,
        0,
    );
    let mut registry = AppRegistry::from_data(data).unwrap();
    let same = registry.update_order_priority_at(1, true, at(20)).unwrap();
    assert_eq!(same.status, OrderStatus::Waiting);
    assert_eq!(registry.data().unallocated_stock.tsubuan, 5);
    let changed = registry.update_order_priority_at(1, false, at(20)).unwrap();
    assert_eq!(changed.status, OrderStatus::Ready);
    assert!(!changed.is_priority);
    assert_eq!(registry.data().unallocated_stock.tsubuan, 3);
}

#[test]
fn numbers_rise_by_one_from_the_highest() {
    let data = records(
        vec![
            order(4, vec![item(Flavor::Tsubuan, 20)], OrderStatus::Waiting, 10, false),
            order(9, vec![item(Flavor::Tsubuan, 20)], OrderStatus::Cancelled, 10, false),
        ],
        0,
        0,
        0,
    );
    let mut registry = AppRegistry::from_data(data).unwrap();
    let created = registry.create_order_at(vec![item(Flavor::Custard, 1)], true, at(20));
    assert_eq!(created.id, 10);
    assert!(created.is_priority);
    assert_eq!(registry.data().orders.len(), 3);
}

#[test]
fn records_that_are_not_well_formed_are_turned_away() {
    let repeated = records(
        vec![
            order(2, Vec::new(), OrderStatus::Completed, 10, false),
            order(2, Vec::new(), OrderStatus::Completed, 10, false),
        ],
        0,
        0,
        0,
    );
    assert!(AppRegistry::from_data(repeated).is_none());

    let falling = records(
        vec![
            order(2, Vec::new(), OrderStatus::Completed, 10, false),
            order(1, Vec::new(), OrderStatus::Completed, 10, false),
        ],
        0,
        0,
        0,
    );
    assert!(AppRegistry::from_data(falling).is_none());

    let mut waiting = order(1, Vec::new(), OrderStatus::Waiting, 10, false);
    waiting.ready_at = Some(at(3));
    assert!(AppRegistry::from_data(records(vec![waiting], 0, 0, 0)).is_none());

    let mut twice = order(1, Vec::new(), OrderStatus::Ready, 10, false);
    twice.notify = vec![
        Notify::Line { user_id: String::from("a") },
        Notify::Line { user_id: String::from("a") },
    ];
    assert!(AppRegistry::from_data(records(vec![twice], 0, 0, 0)).is_none());

    let full = records(Vec::new(), usize::MAX, 0, 0);
    assert!(AppRegistry::from_data(full).is_none());

    let claimed = records(
        vec![order(1, vec![item(Flavor::Custard, 2)], OrderStatus::Ready, 10, false)],
        0,
        usize::MAX - 2,
        0,
    );
    assert!(AppRegistry::from_data(claimed).is_none());

    let closed = records(
        vec![order(1, vec![item(Flavor::Custard, 2)], OrderStatus::Completed, 10, false)],
        0,
        usize::MAX - 2,
        0,
    );
    assert!(AppRegistry::from_data(closed).is_some());
}

#[test]
fn what_cannot_be_counted_cannot_be_taken() {
    let registry = AppRegistry::from_data(records(Vec::new(), usize::MAX - 5, 0, 0)).unwrap();
    assert!(registry.can_create_order(&vec![item(Flavor::Tsubuan, 4)]));
    assert!(!registry.can_create_order(&vec![item(Flavor::Tsubuan, 5)]));
    assert!(!registry.can_create_order(&vec![item(Flavor::Tsubuan, 2), item(Flavor::Tsubuan, 3)]));
    assert!(registry.can_create_order(&vec![item(Flavor::Custard, 5)]));
    assert!(registry.can_update_production(&vec![item(Flavor::Tsubuan, 4)]));
    assert!(!registry.can_update_production(&vec![item(Flavor::Tsubuan, usize::MAX)]));

    let last = AppRegistry::from_data(records(
        vec![order(u32::MAX, Vec::new(), OrderStatus::Completed, 1, false)],
        0,
        0,
        0,
    ))
    .unwrap();
    assert!(!last.can_create_order(&vec![item(Flavor::Tsubuan, 1)]));
}
