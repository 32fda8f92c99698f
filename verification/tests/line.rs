use taiyaq_backend::app::AppRegistry;
use taiyaq_backend::data::{Data, Flavor, Item, Notify, Order, OrderStatus, Timestamp};
use taiyaq_backend::line::commands::{
    create_notification_confirm_template, handle_command, handle_postback, handle_text_message,
    read_postback, Postback, Reply,
};
use taiyaq_backend::line::handler::handle_message;

fn order(id: u32, status: OrderStatus, secs: i64) -> Order {
    Order {
        id,
        items: vec![
            Item { flavor: Flavor::Tsubuan, quantity: 2 },
            Item { flavor: Flavor::Kurikinton, quantity: 1 },
        ],
        status,
        ordered_at: Timestamp { secs, nanos: 0 },
        ready_at: None,
        completed_at: None,
        notify: Vec::new(),
        is_priority: false,
    }
}

fn four_orders() -> AppRegistry {
    let mut data = Data::default();
    data.orders = vec![
        order(1, OrderStatus::Waiting, 1_431_648_000),
        order(2, OrderStatus::Completed, 1_431_648_000),
        order(3, OrderStatus::Cancelled, 1_431_648_000),
        order(4, OrderStatus::Ready, i64::MAX),
    ];
    AppRegistry::from_data(data).unwrap()
}

fn text_of(reply: Option<Reply>) -> String {
    match reply {
        Some(Reply::Text(text)) => text,
        other => panic!("no text: {:?}", other),
    }
}

#[test]
fn button_data_is_read() {
    assert_eq!(read_postback("check_order_12"), Postback::CheckOrder(12));
    assert_eq!(read_postback("check_order_+12"), Postback::CheckOrder(12));
    assert_eq!(read_postback("check_order_0012"), Postback::CheckOrder(12));
    assert_eq!(read_postback("check_order_4294967295"), Postback::CheckOrder(4_294_967_295));
    assert_eq!(read_postback("check_order_4294967296"), Postback::Other);
    assert_eq!(read_postback("check_order_"), Postback::Other);
    assert_eq!(read_postback("check_order_1 "), Postback::Other);
    assert_eq!(read_postback("check_order_-1"), Postback::Other);
    assert_eq!(read_postback("check_order_１"), Postback::Other);
    assert_eq!(read_postback("notify_confirm_7"), Postback::ConfirmNotification(7));
    assert_eq!(read_postback("notify_confirm_x"), Postback::Other);
    assert_eq!(read_postback("notify_cancel_7"), Postback::CancelNotification);
    assert_eq!(read_postback("notify_cancel_"), Postback::CancelNotification);
    assert_eq!(read_postback("notify_cancel_whatever"), Postback::CancelNotification);
    assert_eq!(read_postback("notify_cancel"), Postback::Other);
    assert_eq!(read_postback("action=show_access"), Postback::ShowAccess);
    assert_eq!(read_postback("action=show_access "), Postback::Other);
    assert_eq!(read_postback("action=show_waittime"), Postback::ShowWaittime);
    assert_eq!(read_postback("action=show_menu"), Postback::Other);
    assert_eq!(read_postback(""), Postback::Other);
}

#[test]
fn a_look_at_an_order_shows_it_or_says_that_it_is_not_there() {
    let mut registry = four_orders();
    let text = text_of(handle_postback(&mut registry, "check_order_1", None));
    assert_eq!(
        text,
        "📦 注文 #1\n\n【現在の状態】\n⏳ 待機中\n\n【予想待ち時間】\n15 分\n\n【商品】\n  ・つぶあん x2\n  ・栗きんとん x1\n\n【注文時刻】\n2015年05月15日 00:00"
    );
    let missing = text_of(handle_postback(&mut registry, "check_order_9", None));
    assert_eq!(missing, "❌ 注文 9 が見つかりません。");
    assert!(handle_postback(&mut registry, "check_order_4", None).is_none());
}

#[test]
fn asking_to_be_told_adds_the_sender() {
    let mut registry = four_orders();
    match handle_postback(&mut registry, "notify_confirm_1", Some(String::from("alice"))) {
        Some(Reply::Registered { text, check }) => {
            assert_eq!(
                text,
                "✅ 注文 #1 の通知を登録しました！\n準備ができたらメッセージをお送りします。"
            );
            assert_eq!(check, "check_order_1");
        }
        other => panic!("not registered: {:?}", other),
    }
    assert_eq!(
        registry.data().orders[0].notify,
        vec![Notify::Line { user_id: String::from("alice") }]
    );

    let unknown = text_of(handle_postback(&mut registry, "notify_confirm_1", None));
    assert_eq!(unknown, "❌ ユーザー情報の取得に失敗しました。");
    let missing =
        text_of(handle_postback(&mut registry, "notify_confirm_9", Some(String::from("alice"))));
    assert_eq!(missing, "❌ エラー：通知の登録に失敗しました。");
    assert_eq!(registry.data().orders[0].notify.len(), 1);
    assert!(registry.data().orders[1].notify.is_empty());
}

#[test]
fn the_other_buttons_leave_the_records_alone() {
    let mut registry = four_orders();
    let cancelled = text_of(handle_postback(&mut registry, "notify_cancel_1", None));
    assert_eq!(cancelled, "通知の登録をキャンセルしました。");
    assert!(matches!(
        handle_postback(&mut registry, "action=show_access", None),
        Some(Reply::AccessImage)
    ));
    let waits = text_of(handle_postback(&mut registry, "action=show_waittime", None));
    assert_eq!(
        waits,
        "⏱️ 現在の待ち時間\n\n【つぶあん】\n約15分\n【カスタード】\n約15分\n【栗きんとん】\n約15分"
    );
    let menu = text_of(handle_postback(&mut registry, "action=show_menu", None));
    assert_eq!(menu, "🐟メニュー☆彡\n- つぶあん (200円)\n- カスタード (200円)\n- 栗きんとん (200円)");
    let odd = text_of(handle_postback(&mut registry, "check_order_x", None));
    assert_eq!(odd, "不明な操作です: check_order_x");
    assert!(registry.data().orders.iter().all(|o| o.notify.is_empty()));
}

#[test]
fn a_command_names_the_order_to_be_told_of() {
    let registry = four_orders();
    match handle_command(&registry, "!adding_notification: 1 ", true) {
        Some(Reply::Confirm { text, yes, no }) => {
            assert_eq!(
                text,
                "📝 注文 #1 の通知設定\n\n以下の注文で通知を登録しますか？\n\n【商品】\n・つぶあん x2\n・栗きんとん x1\n\n【注文時刻】\n2015年05月15日 00:00:00"
            );
            assert_eq!(yes, "notify_confirm_1");
            assert_eq!(no, "notify_cancel_1");
        }
        other => panic!("no question: {:?}", other),
    }
    assert_eq!(
        text_of(handle_command(&registry, "!adding_notification:2", true)),
        "❌ 注文 2 はすでに完了/キャンセルされています。"
    );
    assert_eq!(
        text_of(handle_command(&registry, "!adding_notification:3", true)),
        "❌ 注文 3 はすでに完了/キャンセルされています。"
    );
    assert_eq!(
        text_of(handle_command(&registry, "!adding_notification:77", true)),
        "❌ 注文 77 が見つかりません。"
    );
    assert_eq!(
        text_of(handle_command(&registry, "!adding_notification:1", false)),
        "❌ ユーザー情報の取得に失敗しました。"
    );
    assert_eq!(
        text_of(handle_command(&registry, "!adding_notification: 1a", true)),
        "❌ 不正な注文番号です。\n半角数字で入力してください。\n例: !adding_notification: 123"
    );
    assert_eq!(
        text_of(handle_command(&registry, "!adding_notification:", false)),
        "❌ 不正な注文番号です。\n半角数字で入力してください。\n例: !adding_notification: 123"
    );
    assert_eq!(
        text_of(handle_command(&registry, "!help", true)),
        "不明なコマンドです。\nリッチメニューから操作してください。"
    );
    assert!(handle_command(&registry, "!adding_notification:4", true).is_none());
}

#[test]
fn the_question_is_put_with_its_buttons() {
    let details = four_orders().get_order_details(1).unwrap();
    match create_notification_confirm_template(&details, "さっき") {
        Reply::Confirm { text, yes, no } => {
            assert_eq!(
                text,
                "📝 注文 #1 の通知設定\n\n以下の注文で通知を登録しますか？\n\n【商品】\n・つぶあん x2\n・栗きんとん x1\n\n【注文時刻】\nさっき"
            );
            assert_eq!(yes, "notify_confirm_1");
            assert_eq!(no, "notify_cancel_1");
        }
        other => panic!("no question: {:?}", other),
    }
}

#[test]
fn a_message_is_a_command_only_behind_an_exclamation_mark() {
    let registry = four_orders();
    assert_eq!(
        text_of(Some(handle_text_message("こんにちは"))),
        "たいやきくんはダンスが上手！"
    );
    assert_eq!(text_of(handle_message(&registry, "こんにちは", true)), "たいやきくんはダンスが上手！");
    assert_eq!(text_of(handle_message(&registry, "", true)), "たいやきくんはダンスが上手！");
    assert_eq!(
        text_of(handle_message(&registry, "adding_notification: 1", true)),
        "たいやきくんはダンスが上手！"
    );
    assert_eq!(
        text_of(handle_message(&registry, " \n!adding_notification: 77\u{3000}", true)),
        "❌ 注文 77 が見つかりません。"
    );
    assert_eq!(
        text_of(handle_message(&registry, "  !", true)),
        "不明なコマンドです。\nリッチメニューから操作してください。"
    );
    assert!(matches!(
        handle_message(&registry, "!adding_notification:1", true),
        Some(Reply::Confirm { .. })
    ));
}
