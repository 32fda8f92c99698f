use taiyaq_backend::app::AppRegistry;
use taiyaq_backend::data::{Flavor, Item, Notify, OrderStatus, Timestamp};

fn at(secs: i64) -> Timestamp {
    Timestamp { secs, nanos: 0 }
}

fn line(user: &str) -> Notify {
    Notify::Line { user_id: String::from(user) }
}

#[test]
fn a_target_is_kept_once() {
    let mut registry = AppRegistry::new();
    registry.create_order_at(vec![Item { flavor: Flavor::Tsubuan, quantity: 1 }], false, at(1));
    let order = registry.add_notification(1, line("alice")).unwrap();
    assert_eq!(order.notify, vec![line("alice")]);
    let order = registry
        .add_notification(1, Notify::Discord { channel_id: 7, user_id: 8 })
        .unwrap();
    assert_eq!(order.notify, vec![line("alice"), Notify::Discord { channel_id: 7, user_id: 8 }]);
    let order = registry.add_notification(1, line("alice")).unwrap();
    assert_eq!(order.notify.len(), 2);
    let order = registry.add_notification(1, line("bob")).unwrap();
    assert_eq!(
        order.notify,
        vec![line("alice"), Notify::Discord { channel_id: 7, user_id: 8 }, line("bob")]
    );
}

#[test]
fn a_target_can_be_taken_back() {
    let mut registry = AppRegistry::new();
    registry.create_order_at(vec![Item { flavor: Flavor::Tsubuan, quantity: 1 }], false, at(1));
    registry.add_notification(1, line("alice"));
    registry.add_notification(1, Notify::Discord { channel_id: 7, user_id: 8 });
    registry.add_notification(1, line("bob"));
    let order = registry.cancel_notification(1, &Notify::Discord { channel_id: 7, user_id: 8 }).unwrap();
    assert_eq!(order.notify, vec![line("alice"), line("bob")]);
    let order = registry.cancel_notification(1, &Notify::Discord { channel_id: 7, user_id: 9 }).unwrap();
    assert_eq!(order.notify, vec![line("alice"), line("bob")]);
    let order = registry.cancel_notification(1, &line("alice")).unwrap();
    assert_eq!(order.notify, vec![line("bob")]);
}

#[test]
fn every_target_of_a_ready_order_gets_a_notice() {
    let mut registry = AppRegistry::new();
    registry.create_order_at(vec![Item { flavor: Flavor::Tsubuan, quantity: 2 }], false, at(1));
    registry.create_order_at(vec![Item { flavor: Flavor::Tsubuan, quantity: 20 }], false, at(2));
    registry.add_notification(1, line("alice"));
    registry.add_notification(1, Notify::Discord { channel_id: 7, user_id: 8 });
    registry.add_notification(2, line("bob"));
    assert!(registry.take_notices().is_empty());

    let (promoted, _) =
        registry.update_production_at(vec![Item { flavor: Flavor::Tsubuan, quantity: 9 }], at(3));
    assert_eq!(promoted, vec![1]);
    let notices = registry.take_notices();
    assert_eq!(notices.len(), 2);
    assert_eq!(notices[0].order_id, 1);
    assert_eq!(notices[0].target, line("alice"));
    assert_eq!(notices[0].message, "#1番 のご注文の準備ができました！");
    assert_eq!(notices[1].order_id, 1);
    assert_eq!(notices[1].target, Notify::Discord { channel_id: 7, user_id: 8 });
    assert_eq!(notices[1].message, "#1番 のご注文の準備ができました！");
    assert!(registry.take_notices().is_empty());
    assert_eq!(registry.data().orders[0].status, OrderStatus::Ready);
}

#[test]
fn notices_gather_until_they_are_taken() {
    let mut registry = AppRegistry::new();
    registry.create_order_at(vec![Item { flavor: Flavor::Custard, quantity: 1 }], false, at(1));
    registry.create_order_at(vec![Item { flavor: Flavor::Kurikinton, quantity: 1 }], false, at(2));
    registry.add_notification(1, line("alice"));
    registry.add_notification(2, line("bob"));
    registry.update_production_at(vec![Item { flavor: Flavor::Custard, quantity: 1 }], at(3));
    registry.update_production_at(vec![Item { flavor: Flavor::Kurikinton, quantity: 1 }], at(4));
    let notices = registry.take_notices();
    assert_eq!(notices.len(), 2);
    assert_eq!(notices[0].target, line("alice"));
    assert_eq!(notices[1].target, line("bob"));
    assert_eq!(notices[1].message, "#2番 のご注文の準備ができました！");
}

#[test]
fn the_number_in_a_notice_is_written_in_full() {
    let mut data = taiyaq_backend::data::Data::default();
    data.orders = vec![taiyaq_backend::data::Order {
        id: 4_294_967_290,
        items: Vec::new(),
        status: OrderStatus::Waiting,
        ordered_at: at(1),
        ready_at: None,
        completed_at: None,
        notify: vec![line("alice")],
        is_priority: false,
    }];
    let mut registry = AppRegistry::from_data(data).unwrap();
    assert_eq!(registry.update_order_statuses(at(2)), vec![4_294_967_290]);
    let notices = registry.take_notices();
    assert_eq!(notices[0].message, "#4294967290番 のご注文の準備ができました！");
}
