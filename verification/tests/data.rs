use taiyaq_backend::data::{
    clone_targets, Data, Flavor, FlavorConfig, Item, Notify, Order, OrderStatus, PerFlavor,
    Timestamp,
};

#[test]
fn flavors_have_their_names_in_menu_order() {
    let names: Vec<&str> = Flavor::all().iter().map(|f| f.name()).collect();
    assert_eq!(names, vec!["つぶあん", "カスタード", "栗きんとん"]);
    assert_eq!(Flavor::all(), [Flavor::Tsubuan, Flavor::Custard, Flavor::Kurikinton]);
}

#[test]
fn each_flavor_has_its_own_place() {
    let mut stock = PerFlavor { tsubuan: 1, custard: 2, kurikinton: 3 };
    assert_eq!(*stock.get(Flavor::Tsubuan), 1);
    assert_eq!(*stock.get(Flavor::Custard), 2);
    assert_eq!(*stock.get(Flavor::Kurikinton), 3);
    stock.set(Flavor::Custard, 20);
    assert_eq!((stock.tsubuan, stock.custard, stock.kurikinton), (1, 20, 3));
    stock.set(Flavor::Kurikinton, 0);
    stock.set(Flavor::Tsubuan, 7);
    let copy = stock.clone();
    assert_eq!((copy.tsubuan, copy.custard, copy.kurikinton), (7, 20, 0));
}

#[test]
fn times_are_told_apart_down_to_the_nanosecond() {
    let early = Timestamp { secs: 10, nanos: 999_999_999 };
    let late = Timestamp { secs: 11, nanos: 0 };
    let later = Timestamp { secs: 11, nanos: 1 };
    let before = Timestamp { secs: -1, nanos: 5 };
    assert!(early.is_before(&late));
    assert!(late.is_before(&later));
    assert!(before.is_before(&early));
    assert!(!late.is_before(&early));
    assert!(!late.is_before(&late));
    assert!(late.is_not_after(&late));
    assert!(early.is_not_after(&late));
    assert!(!later.is_not_after(&late));
}

#[test]
fn targets_are_the_same_by_what_they_say() {
    let alice = Notify::Line { user_id: String::from("alice") };
    assert!(alice == Notify::Line { user_id: String::from("alice") });
    assert!(alice != Notify::Line { user_id: String::from("Alice") });
    assert!(alice != Notify::Discord { channel_id: 1, user_id: 2 });
    assert!(
        Notify::Discord { channel_id: 1, user_id: 2 }
            == Notify::Discord { channel_id: 1, user_id: 2 }
    );
    assert!(
        Notify::Discord { channel_id: 1, user_id: 2 }
            != Notify::Discord { channel_id: 2, user_id: 1 }
    );
    assert!(alice.clone() == alice);
    let list = vec![alice, Notify::Discord { channel_id: 1, user_id: 2 }];
    assert_eq!(clone_targets(&list), list);
}

#[test]
fn a_copy_of_an_order_says_the_same() {
    let order = Order {
        id: 7,
        items: vec![Item { flavor: Flavor::Custard, quantity: 4 }],
        status: OrderStatus::Ready,
        ordered_at: Timestamp { secs: 1, nanos: 2 },
        ready_at: Some(Timestamp { secs: 3, nanos: 4 }),
        completed_at: None,
        notify: vec![Notify::Line { user_id: String::from("alice") }],
        is_priority: true,
    };
    let copy = order.clone();
    assert_eq!(copy.id, 7);
    assert_eq!(copy.items, order.items);
    assert_eq!(copy.status, OrderStatus::Ready);
    assert_eq!(copy.ordered_at, order.ordered_at);
    assert_eq!(copy.ready_at, order.ready_at);
    assert_eq!(copy.completed_at, None);
    assert_eq!(copy.notify, order.notify);
    assert!(copy.is_priority);
}

#[test]
fn a_stall_opens_without_orders_or_stock() {
    let data = Data::default();
    assert!(data.orders.is_empty());
    let stock = data.unallocated_stock;
    assert_eq!((stock.tsubuan, stock.custard, stock.kurikinton), (0, 0, 0));
    let FlavorConfig { cooking_time_minutes, quantity_per_batch } = data.flavor_configs.kurikinton;
    assert_eq!((cooking_time_minutes, quantity_per_batch), (15, 2));
    assert_eq!(OrderStatus::default(), OrderStatus::Waiting);
}
