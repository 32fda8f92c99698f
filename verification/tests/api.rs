use taiyaq_backend::api::auth::staff_api_auth;
use taiyaq_backend::api::handler::{get_display_orders, get_staff_orders};
use taiyaq_backend::api::model::{csv_to_order_status, StaffOrdersQuery};
use taiyaq_backend::app::AppRegistry;
use taiyaq_backend::data::{Data, Flavor, Item, Order, OrderStatus, Timestamp};

fn order(id: u32, status: OrderStatus) -> Order {
    Order {
        id,
        items: vec![Item { flavor: Flavor::Tsubuan, quantity: 1 }],
        status,
        ordered_at: Timestamp { secs: id as i64, nanos: 0 },
        ready_at: None,
        completed_at: None,
        notify: Vec::new(),
        is_priority: false,
    }
}

fn seven_orders() -> AppRegistry {
    let mut data = Data::default();
    data.orders = vec![
        order(1, OrderStatus::Ready),
        order(2, OrderStatus::Waiting),
        order(3, OrderStatus::Cooking),
        order(4, OrderStatus::Completed),
        order(5, OrderStatus::Ready),
        order(6, OrderStatus::Cancelled),
        order(7, OrderStatus::Waiting),
    ];
    AppRegistry::from_data(data).unwrap()
}

fn ids(orders: &[Order]) -> Vec<u32> {
    orders.iter().map(|o| o.id).collect()
}

#[test]
fn display_lists_open_orders_by_state() {
    let shown = get_display_orders(&seven_orders());
    assert_eq!(shown.ready.iter().map(|o| o.id).collect::<Vec<u32>>(), vec![1, 5]);
    assert_eq!(shown.cooking.iter().map(|o| o.id).collect::<Vec<u32>>(), vec![3]);
    assert_eq!(shown.waiting.iter().map(|o| o.id).collect::<Vec<u32>>(), vec![2, 7]);
}

#[test]
fn staff_see_the_states_they_ask_for() {
    let registry = seven_orders();
    let all = get_staff_orders(&registry, &StaffOrdersQuery { status: Vec::new() });
    assert_eq!(ids(&all), vec![1, 2, 3, 4, 5, 6, 7]);
    let some = get_staff_orders(
        &registry,
        &StaffOrdersQuery { status: vec![OrderStatus::Cancelled, OrderStatus::Ready] },
    );
    assert_eq!(ids(&some), vec![1, 5, 6]);
    let none = get_staff_orders(
        &AppRegistry::new(),
        &StaffOrdersQuery { status: vec![OrderStatus::Ready] },
    );
    assert!(none.is_empty());
}

#[test]
fn states_are_read_from_a_list() {
    assert_eq!(csv_to_order_status(""), Ok(Vec::new()));
    assert_eq!(csv_to_order_status("waiting"), Ok(vec![OrderStatus::Waiting]));
    assert_eq!(
        csv_to_order_status("waiting,cooking,ready,completed,cancelled"),
        Ok(vec![
            OrderStatus::Waiting,
            OrderStatus::Cooking,
            OrderStatus::Ready,
            OrderStatus::Completed,
            OrderStatus::Cancelled
        ])
    );
    assert_eq!(
        csv_to_order_status(" ready ,\tcancelled\u{3000},,ready, "),
        Ok(vec![OrderStatus::Ready, OrderStatus::Cancelled, OrderStatus::Ready])
    );
    assert_eq!(csv_to_order_status(",,"), Ok(Vec::new()));
}

#[test]
fn a_word_that_names_no_state_is_an_error() {
    assert_eq!(
        csv_to_order_status("waiting, done ,nothing"),
        Err(String::from("invalid order status: 'done'"))
    );
    assert_eq!(
        csv_to_order_status("Waiting"),
        Err(String::from("invalid order status: 'Waiting'"))
    );
    assert_eq!(
        csv_to_order_status("wait ing"),
        Err(String::from("invalid order status: 'wait ing'"))
    );
}

#[test]
fn only_the_staff_token_opens_the_door() {
    assert!(staff_api_auth(Some("Bearer s3cret"), "s3cret"));
    assert!(staff_api_auth(Some("Bearer "), ""));
    assert!(staff_api_auth(Some("Bearer 合言葉"), "合言葉"));
    assert!(!staff_api_auth(None, "s3cret"));
    assert!(!staff_api_auth(None, ""));
    assert!(!staff_api_auth(Some("s3cret"), "s3cret"));
    assert!(!staff_api_auth(Some("bearer s3cret"), "s3cret"));
    assert!(!staff_api_auth(Some("Bearer  s3cret"), "s3cret"));
    assert!(!staff_api_auth(Some("Bearer s3cret "), "s3cret"));
    assert!(!staff_api_auth(Some("Bearer s3cre"), "s3cret"));
    assert!(!staff_api_auth(Some("Bearer s3creT"), "s3cret"));
    assert!(!staff_api_auth(Some("Bearer"), ""));
    assert!(!staff_api_auth(Some(""), ""));
}
