use taiyaq_backend::api::model::{DisplayOrder, WaitTimeResponse};
use taiyaq_backend::app::AppRegistry;
use taiyaq_backend::data::{
    Data, Flavor, FlavorConfig, Item, Order, OrderStatus, PerFlavor, Timestamp,
};
use taiyaq_backend::discord::event_handler::event_handler;
use taiyaq_backend::discord::commands::{
    details, display, flavor_of_word, get_flavor_configs, get_orders, id_row_text, item_row,
    notify, parse_flavor, parse_items, read_known_statuses, update_production, waittime,
    FlavorChoice, ItemsError, NotifyPrompt,
};

fn item(flavor: Flavor, quantity: usize) -> Item {
    Item { flavor, quantity }
}

fn order(id: u32, status: OrderStatus, secs: i64, is_priority: bool) -> Order {
    Order {
        id,
        items: vec![item(Flavor::Tsubuan, 2), item(Flavor::Custard, 1)],
        status,
        ordered_at: Timestamp { secs, nanos: 0 },
        ready_at: None,
        completed_at: None,
        notify: Vec::new(),
        is_priority,
    }
}

fn error_of(r: Result<Vec<Item>, ItemsError>) -> (String, String) {
    match r {
        Ok(items) => panic!("read as {:?}", items),
        Err(e) => {
            let word = match &e {
                ItemsError::Format => String::new(),
                ItemsError::Flavor(word) => word.clone(),
                ItemsError::Quantity(word) => word.clone(),
            };
            (word, e.message("tsubuan:9,custard:9"))
        }
    }
}

#[test]
fn a_chosen_flavor_is_that_flavor() {
    assert_eq!(Flavor::from(FlavorChoice::Tsubuan), Flavor::Tsubuan);
    assert_eq!(Flavor::from(FlavorChoice::Custard), Flavor::Custard);
    assert_eq!(Flavor::from(FlavorChoice::Kurikinton), Flavor::Kurikinton);
}

#[test]
fn flavors_are_read_in_any_case() {
    assert_eq!(parse_flavor("tsubuan"), Ok(Flavor::Tsubuan));
    assert_eq!(parse_flavor("TSUBUAN"), Ok(Flavor::Tsubuan));
    assert_eq!(parse_flavor("Custard"), Ok(Flavor::Custard));
    assert_eq!(parse_flavor("kuriKinton"), Ok(Flavor::Kurikinton));
    assert_eq!(parse_flavor("\u{212a}URIKINTON"), Ok(Flavor::Kurikinton));
    assert_eq!(parse_flavor("つぶあん"), Err("不正なフレーバーです"));
    assert_eq!(parse_flavor(" tsubuan"), Err("不正なフレーバーです"));
    assert_eq!(parse_flavor(""), Err("不正なフレーバーです"));
    assert_eq!(flavor_of_word("custard"), Some(Flavor::Custard));
    assert_eq!(flavor_of_word("Custard"), None);
}

#[test]
fn items_are_read_from_a_list() {
    assert_eq!(
        parse_items("tsubuan:2,custard:1,kurikinton:1").unwrap(),
        vec![item(Flavor::Tsubuan, 2), item(Flavor::Custard, 1), item(Flavor::Kurikinton, 1)]
    );
    assert_eq!(
        parse_items("  Tsubuan:+10 ,\tkurikinton:0").unwrap(),
        vec![item(Flavor::Tsubuan, 10), item(Flavor::Kurikinton, 0)]
    );
    assert_eq!(
        parse_items("tsubuan:1,tsubuan:1").unwrap(),
        vec![item(Flavor::Tsubuan, 1), item(Flavor::Tsubuan, 1)]
    );
}

#[test]
fn what_is_wrong_with_a_list_is_said() {
    assert_eq!(
        error_of(parse_items("")),
        (
            String::new(),
            String::from("アイテムのフォーマットが不正です。例: `tsubuan:9,custard:9`")
        )
    );
    assert_eq!(error_of(parse_items("tsubuan:1,")).0, "");
    assert_eq!(error_of(parse_items("tsubuan")).0, "");
    assert_eq!(error_of(parse_items("tsubuan:1:2")).0, "");
    assert_eq!(
        error_of(parse_items("tsubuan:1,anko:2,custard:x")),
        (String::from("anko"), String::from("不正なフレーバーです: `anko`"))
    );
    assert_eq!(
        error_of(parse_items("tsubuan :1")),
        (String::from("tsubuan "), String::from("不正なフレーバーです: `tsubuan `"))
    );
    assert_eq!(
        error_of(parse_items("tsubuan:1,custard: 2")),
        (String::from(" 2"), String::from("不正な数量です: ` 2`"))
    );
    assert_eq!(
        error_of(parse_items("custard:")),
        (String::new(), String::from("不正な数量です: ``"))
    );
    assert_eq!(error_of(parse_items("custard:-1")).0, "-1");
    assert_eq!(
        error_of(parse_items("custard:99999999999999999999999999")).0,
        "99999999999999999999999999"
    );
}

#[test]
fn quantities_go_up_to_the_largest_number() {
    let largest = format!("custard:{}", usize::MAX);
    assert_eq!(parse_items(&largest).unwrap(), vec![item(Flavor::Custard, usize::MAX)]);
    let beyond = format!("custard:{}0", usize::MAX);
    assert!(parse_items(&beyond).is_err());
}

#[test]
fn states_that_are_not_known_are_passed_over() {
    assert_eq!(
        read_known_statuses("ready, nothing ,,waiting,Ready"),
        vec![OrderStatus::Ready, OrderStatus::Waiting]
    );
    assert!(read_known_statuses("").is_empty());
    assert_eq!(
        read_known_statuses("cancelled ,completed, cooking"),
        vec![OrderStatus::Cancelled, OrderStatus::Completed, OrderStatus::Cooking]
    );
}

#[test]
fn numbers_stand_in_a_row() {
    assert_eq!(id_row_text(&Vec::new(), ", "), "なし");
    assert_eq!(id_row_text(&vec![3], ", "), "3");
    assert_eq!(id_row_text(&vec![3, 10, 4], ", "), "3, 10, 4");
    assert_eq!(display(&Vec::new()), "なし");
    assert_eq!(
        display(&vec![DisplayOrder { id: 1 }, DisplayOrder { id: 22 }, DisplayOrder { id: 3 }]),
        "1 | 22 | 3"
    );
    assert_eq!(item_row(&Vec::new()), "");
    assert_eq!(
        item_row(&vec![item(Flavor::Kurikinton, 3), item(Flavor::Tsubuan, 12)]),
        "栗きんとん x 3, つぶあん x 12"
    );
}

#[test]
fn an_order_is_told_in_a_line() {
    let mut data = Data::default();
    data.orders = vec![
        order(1, OrderStatus::Waiting, 10, false),
        order(2, OrderStatus::Ready, 10, false),
    ];
    let registry = AppRegistry::from_data(data).unwrap();
    assert_eq!(
        details(&registry, 1),
        "注文 `1`: ステータスは `Waiting` です。推定待ち時間: `15 分`."
    );
    assert_eq!(details(&registry, 2), "注文 `2`: ステータスは `Ready` です。推定待ち時間: `N/A`.");
    assert_eq!(details(&registry, 3), "注文 `3` が見つかりません。");
}

#[test]
fn orders_are_listed_up_to_ten() {
    assert_eq!(get_orders(&Vec::new()), "対象の注文はありません。");
    let two = vec![
        order(1, OrderStatus::Waiting, 10, true),
        order(2, OrderStatus::Cancelled, 10, false),
    ];
    assert_eq!(
        get_orders(&two),
        "ID: `1` | Status: `Waiting` | Priority: `true` | Items: `つぶあん x 2, カスタード x 1`\nID: `2` | Status: `Cancelled` | Priority: `false` | Items: `つぶあん x 2, カスタード x 1`\n"
    );
    let many: Vec<Order> = (1..=12).map(|id| order(id, OrderStatus::Cooking, 10, false)).collect();
    let text = get_orders(&many);
    assert_eq!(text.lines().count(), 12);
    assert!(text.starts_with(
        "ID: `1` | Status: `Cooking` | Priority: `false` | Items: `つぶあん x 2, カスタード x 1`\n"
    ));
    assert!(text.ends_with(
        "ID: `10` | Status: `Cooking` | Priority: `false` | Items: `つぶあん x 2, カスタード x 1`\n\n... and 2 more orders."
    ));
    let ten: Vec<Order> = (1..=10).map(|id| order(id, OrderStatus::Ready, 10, false)).collect();
    assert!(get_orders(&ten).ends_with("カスタード x 1`\n"));
}

#[test]
fn a_batch_is_reported() {
    assert_eq!(
        update_production(&vec![4, 7], &vec![item(Flavor::Tsubuan, 2), item(Flavor::Custard, 9)]),
        "生産を報告しました。\n新たに準備完了になった注文: 4, 7\n余剰在庫: つぶあん x 2, カスタード x 9"
    );
    assert_eq!(
        update_production(&Vec::new(), &Vec::new()),
        "生産を報告しました。\n新たに準備完了になった注文: なし\n余剰在庫: なし"
    );
}

#[test]
fn the_ways_of_baking_are_listed() {
    let configs = PerFlavor {
        tsubuan: FlavorConfig { cooking_time_minutes: 15, quantity_per_batch: 9 },
        custard: FlavorConfig { cooking_time_minutes: 20, quantity_per_batch: 0 },
        kurikinton: FlavorConfig { cooking_time_minutes: 0, quantity_per_batch: 2 },
    };
    assert_eq!(
        get_flavor_configs(&configs),
        "## フレーバー設定一覧\n- **つぶあん**: 調理時間: 15分, バッチ生産数: 9\n- **カスタード**: 調理時間: 20分, バッチ生産数: 0\n- **栗きんとん**: 調理時間: 0分, バッチ生産数: 2\n"
    );
}

#[test]
fn waits_are_worded_for_each_flavor() {
    let fields = waittime(&WaitTimeResponse {
        wait_times: PerFlavor { tsubuan: None, custard: Some(0), kurikinton: Some(45) },
    });
    assert_eq!(fields.tsubuan, "提供なし");
    assert_eq!(fields.custard, "すぐに提供できます");
    assert_eq!(fields.kurikinton, "約45分");
}

#[test]
fn the_question_names_the_order() {
    let mut data = Data::default();
    data.orders = vec![
        order(1, OrderStatus::Cooking, 1_431_648_000, false),
        order(2, OrderStatus::Completed, 10, false),
        order(3, OrderStatus::Cancelled, 10, false),
        order(4, OrderStatus::Waiting, -5, false),
    ];
    let registry = AppRegistry::from_data(data).unwrap();
    match notify(&registry, 1) {
        NotifyPrompt::Ask { title, items, ordered_at } => {
            assert_eq!(title, "注文 #1 の通知設定");
            assert_eq!(items, "- つぶあん x2\n- カスタード x1");
            assert_eq!(ordered_at, "<t:1431648000:F>");
        }
        other => panic!("no question: {:?}", other),
    }
    match notify(&registry, 4) {
        NotifyPrompt::Ask { ordered_at, .. } => assert_eq!(ordered_at, "<t:-5:F>"),
        other => panic!("no question: {:?}", other),
    }
    match notify(&registry, 2) {
        NotifyPrompt::Closed(text) => {
            assert_eq!(text, "注文 `2` はすでに完了/キャンセルされています。")
        }
        other => panic!("not closed: {:?}", other),
    }
    assert!(matches!(notify(&registry, 3), NotifyPrompt::Closed(_)));
    match notify(&registry, 9) {
        NotifyPrompt::NotFound(text) => assert_eq!(text, "注文 `9` が見つかりません。"),
        other => panic!("found: {:?}", other),
    }
}

#[test]
fn a_button_for_a_channel_names_its_category() {
    assert_eq!(event_handler("create_channel_123"), Some(123));
    assert_eq!(event_handler("create_channel_a_b_18446744073709551615"), Some(u64::MAX));
    assert_eq!(event_handler("create_channel_18446744073709551616"), None);
    assert_eq!(event_handler("create_channel123_4"), Some(4));
    assert_eq!(event_handler("create_channel_+5"), Some(5));
    assert_eq!(event_handler("create_channel"), None);
    assert_eq!(event_handler("create_channel_"), None);
    assert_eq!(event_handler("create_channel_12_"), None);
    assert_eq!(event_handler("create_channel_x"), None);
    assert_eq!(event_handler("create_chann_12"), None);
    assert_eq!(event_handler("notify_confirm_12"), None);
    assert_eq!(event_handler(""), None);
}
