use taiyaq_backend::app::AppRegistry;
use taiyaq_backend::data::{
    Data, Flavor, FlavorConfig, Item, Order, OrderStatus, PerFlavor, Timestamp,
};

fn at(secs: i64) -> Timestamp {
    Timestamp { secs, nanos: 0 }
}

fn order(id: u32, flavor: Flavor, quantity: usize, status: OrderStatus, secs: i64) -> Order {
    Order {
        id,
        items: vec![Item { flavor, quantity }],
        status,
        ordered_at: at(secs),
        ready_at: None,
        completed_at: None,
        notify: Vec::new(),
        is_priority: false,
    }
}

fn registry(orders: Vec<Order>, tsubuan: usize, custard: usize, kurikinton: usize) -> AppRegistry {
    let mut data = Data::default();
    data.orders = orders;
    data.unallocated_stock = PerFlavor { tsubuan, custard, kurikinton };
    AppRegistry::from_data(data).unwrap()
}

#[test]
fn wait_counts_the_demand_placed_no_later() {
    let registry = registry(
        vec![
            order(1, Flavor::Tsubuan, 10, OrderStatus::Waiting, 10),
            order(2, Flavor::Tsubuan, 5, OrderStatus::Waiting, 20),
            order(3, Flavor::Tsubuan, 50, OrderStatus::Cooking, 5),
            order(4, Flavor::Tsubuan, 50, OrderStatus::Ready, 5),
        ],
        3,
        0,
        0,
    );
    let first = registry.get_order_details(1).unwrap();
    assert_eq!(first.id, 1);
    assert_eq!(first.status, OrderStatus::Waiting);
    assert_eq!(first.ordered_at, at(10));
    assert_eq!(first.items, vec![Item { flavor: Flavor::Tsubuan, quantity: 10 }]);
    assert_eq!(first.estimated_wait_minutes, Some(15));
    let second = registry.get_order_details(2).unwrap();
    assert_eq!(second.estimated_wait_minutes, Some(30));
}

#[test]
fn wait_is_that_of_the_slowest_flavor() {
    let mut data = Data::default();
    data.orders = vec![Order {
        id: 1,
        items: vec![
            Item { flavor: Flavor::Tsubuan, quantity: 1 },
            Item { flavor: Flavor::Kurikinton, quantity: 5 },
            Item { flavor: Flavor::Custard, quantity: 10 },
        ],
        status: OrderStatus::Waiting,
        ordered_at: at(1),
        ready_at: None,
        completed_at: None,
        notify: Vec::new(),
        is_priority: false,
    }];
    data.unallocated_stock = PerFlavor { tsubuan: 1, custard: 0, kurikinton: 0 };
    data.flavor_configs.custard = FlavorConfig { cooking_time_minutes: 20, quantity_per_batch: 9 };
    let registry = AppRegistry::from_data(data).unwrap();
    let details = registry.get_order_details(1).unwrap();
    assert_eq!(details.estimated_wait_minutes, Some(45));
}

#[test]
fn wait_is_zero_where_stock_covers_or_nothing_is_baked() {
    let mut registry = registry(
        vec![
            order(1, Flavor::Tsubuan, 3, OrderStatus::Waiting, 10),
            order(2, Flavor::Custard, 3, OrderStatus::Waiting, 10),
        ],
        3,
        0,
        0,
    );
    registry.set_flavor_config(
        Flavor::Custard,
        FlavorConfig { cooking_time_minutes: 15, quantity_per_batch: 0 },
    );
    assert_eq!(registry.get_order_details(1).unwrap().estimated_wait_minutes, Some(0));
    assert_eq!(registry.get_order_details(2).unwrap().estimated_wait_minutes, Some(0));
}

#[test]
fn only_waiting_orders_have_a_wait() {
    let registry = registry(
        vec![
            order(1, Flavor::Tsubuan, 3, OrderStatus::Cooking, 10),
            order(2, Flavor::Tsubuan, 3, OrderStatus::Ready, 10),
            order(3, Flavor::Tsubuan, 3, OrderStatus::Completed, 10),
            order(4, Flavor::Tsubuan, 3, OrderStatus::Cancelled, 10),
        ],
        0,
        0,
        0,
    );
    for id in 1..5 {
        assert_eq!(registry.get_order_details(id).unwrap().estimated_wait_minutes, None);
    }
}

#[test]
fn an_earlier_order_never_shortens_the_wait() {
    let before = registry(vec![order(1, Flavor::Tsubuan, 9, OrderStatus::Waiting, 10)], 0, 0, 0);
    let after = registry(
        vec![
            order(1, Flavor::Tsubuan, 9, OrderStatus::Waiting, 10),
            order(2, Flavor::Tsubuan, 1, OrderStatus::Waiting, 9),
        ],
        0,
        0,
        0,
    );
    let short = before.get_order_details(1).unwrap().estimated_wait_minutes.unwrap();
    let long = after.get_order_details(1).unwrap().estimated_wait_minutes.unwrap();
    assert_eq!(short, 15);
    assert_eq!(long, 30);
    assert!(short <= long);
}

#[test]
fn walk_in_waits_behind_those_waiting_and_cooking() {
    let mut registry = registry(
        vec![
            order(1, Flavor::Tsubuan, 10, OrderStatus::Waiting, 10),
            order(2, Flavor::Tsubuan, 5, OrderStatus::Cooking, 20),
            order(3, Flavor::Tsubuan, 50, OrderStatus::Ready, 5),
            order(4, Flavor::Custard, 2, OrderStatus::Waiting, 5),
        ],
        3,
        3,
        0,
    );
    registry.set_flavor_config(
        Flavor::Kurikinton,
        FlavorConfig { cooking_time_minutes: 15, quantity_per_batch: 0 },
    );
    let waits = registry.get_current_wait_times();
    assert_eq!(waits.wait_times.tsubuan, Some(30));
    assert_eq!(waits.wait_times.custard, Some(0));
    assert_eq!(waits.wait_times.kurikinton, None);
}

#[test]
fn walk_in_waits_one_batch_at_an_empty_stall() {
    let registry = AppRegistry::new();
    let waits = registry.get_current_wait_times();
    assert_eq!(waits.wait_times.tsubuan, Some(15));
    assert_eq!(waits.wait_times.custard, Some(15));
    assert_eq!(waits.wait_times.kurikinton, Some(15));
}

#[test]
fn waits_of_any_size_can_be_counted() {
    let mut data = Data::default();
    data.orders = vec![order(1, Flavor::Tsubuan, usize::MAX - 1, OrderStatus::Waiting, 10)];
    data.flavor_configs.tsubuan =
        FlavorConfig { cooking_time_minutes: u32::MAX, quantity_per_batch: 1 };
    let registry = AppRegistry::from_data(data).unwrap();
    let wait = registry.get_order_details(1).unwrap().estimated_wait_minutes.unwrap();
    assert_eq!(wait, (usize::MAX as u128 - 1) * (u32::MAX as u128));
    let waits = registry.get_current_wait_times();
    assert_eq!(waits.wait_times.tsubuan, Some((usize::MAX as u128) * (u32::MAX as u128)));
}
