//! The texts of the replies.

use vstd::prelude::*;
use crate::api::model::{OrderDetailsResponse, OrderDetailsView, WaitTimeResponse, minutes_view};
use crate::app::{AppRegistry, details_of};
use crate::changes::{RegistryView, position_of, target_added};
use crate::clock::{format_utc, utc_text};
use crate::data::{DataView, Flavor, Item, Notify, NotifyView, OrderStatus, PerFlavor, flavor_name};
use crate::estimate::{walk_in_wait, walk_in_waits};
use crate::text::{
    chars_of, decimal, has_prefix, join, joined, line_views, number_in, push_decimal, read_number,
    same_text, starts_with, trim, trimmed,
};

verus! {

/// How a status is shown to a customer.
pub open spec fn status_text(status: OrderStatus) -> Seq<char> {
    match status {
        OrderStatus::Waiting => "⏳ 待機中"@,
        OrderStatus::Cooking => "🍳 調理中"@,
        OrderStatus::Ready => "✅ 受け取り準備完了"@,
        OrderStatus::Completed => "🎉 完了"@,
        OrderStatus::Cancelled => "❌ キャンセル"@,
    }
}

/// One item as a line of a list.
pub open spec fn item_line(item: Item) -> Seq<char> {
    "  ・"@ + flavor_name(item.flavor) + " x"@ + decimal(item.quantity as nat)
}

/// The lines of the items.
pub open spec fn item_lines(items: Seq<Item>) -> Seq<Seq<char>> {
    items.map_values(|item: Item| item_line(item))
}

/// How an expected wait is shown.
pub open spec fn wait_text(minutes: Option<nat>) -> Seq<char> {
    match minutes {
        Some(m) => decimal(m) + " 分"@,
        None => "N/A"@,
    }
}

/// The pattern under which the time of an order is written.
pub open spec fn ordered_at_pattern() -> Seq<char> {
    "%Y年%m月%d日 %H:%M"@
}

/// What a customer is told of an order, given the time of the order as
/// text.
pub open spec fn order_details_text(details: OrderDetailsView, ordered_at: Seq<char>) -> Seq<char> {
    "📦 注文 #"@ + decimal(details.id as nat) + "\n\n【現在の状態】\n"@ + status_text(
        details.status,
    ) + "\n\n【予想待ち時間】\n"@ + wait_text(details.estimated_wait_minutes)
        + "\n\n【商品】\n"@ + joined(item_lines(details.items), "\n"@) + "\n\n【注文時刻】\n"@
        + ordered_at
}

/// How a status is shown to a customer.
fn status_label(status: OrderStatus) -> (r: &'static str)
    ensures
        r@ == status_text(status),
{
    match status {
        OrderStatus::Waiting => "⏳ 待機中",
        OrderStatus::Cooking => "🍳 調理中",
        OrderStatus::Ready => "✅ 受け取り準備完了",
        OrderStatus::Completed => "🎉 完了",
        OrderStatus::Cancelled => "❌ キャンセル",
    }
}

/// One item as a line of a list.
fn item_label(item: &Item) -> (r: String)
    ensures
        r@ == item_line(*item),
{
    let mut r = String::from_str("  ・");
    r.append(item.flavor.name());
    r.append(" x");
    push_decimal(&mut r, item.quantity as u128);
    r
}

/// How an expected wait is shown.
fn wait_label(minutes: Option<u128>) -> (r: String)
    ensures
        r@ == wait_text(minutes_view(minutes)),
{
    match minutes {
        Some(m) => {
            let mut r = String::new();
            push_decimal(&mut r, m);
            r.append(" 分");
            assert(r@ =~= decimal(m as nat) + " 分"@);
            r
        },
        None => String::from_str("N/A"),
    }
}

/// What a customer is told of an order, given the time of the order as
/// text.
pub fn render_order_details(details: &OrderDetailsResponse, ordered_at: &str) -> (r: String)
    ensures
        r@ == order_details_text(details@, ordered_at@),
{
    let mut lines: Vec<String> = Vec::new();
    let mut k: usize = 0;
    while k < details.items.len()
        invariant
            k <= details.items.len(),
            line_views(lines@) == item_lines(details.items@.take(k as int)),
        decreases details.items.len() - k,
    {
        let label = item_label(&details.items[k]);
        let ghost before = lines@;
        lines.push(label);
        proof {
            assert(line_views(lines@) =~= line_views(before).push(label@));
            assert(item_lines(details.items@.take(k + 1)) =~= item_lines(
                details.items@.take(k as int),
            ).push(item_line(details.items@[k as int])));
        }
        k += 1;
    }
    proof {
        assert(details.items@.take(k as int) =~= details.items@);
    }
    let mut r = String::from_str("📦 注文 #");
    push_decimal(&mut r, details.id as u128);
    r.append("\n\n【現在の状態】\n");
    r.append(status_label(details.status));
    r.append("\n\n【予想待ち時間】\n");
    r.append(wait_label(details.estimated_wait_minutes).as_str());
    r.append("\n\n【商品】\n");
    r.append(join(&lines, "\n").as_str());
    r.append("\n\n【注文時刻】\n");
    r.append(ordered_at);
    r
}

/// What a customer is told of an order, or `None` where the time of the
/// order cannot be written out as a date.
pub fn format_order_details(details: &OrderDetailsResponse) -> (r: Option<String>)
    ensures
        match utc_text(details.ordered_at.secs, details.ordered_at.nanos, ordered_at_pattern()) {
            Some(ordered_at) => r.is_some() && r.unwrap()@ == order_details_text(
                details@,
                ordered_at,
            ),
            None => r.is_none(),
        },
{
    match format_utc(details.ordered_at.secs, details.ordered_at.nanos, "%Y年%m月%d日 %H:%M") {
        Some(ordered_at) => Some(render_order_details(details, ordered_at.as_str())),
        None => None,
    }
}

/// How the wait for one piece is shown.
pub open spec fn walk_in_text(minutes: Option<nat>) -> Seq<char> {
    match minutes {
        None => "提供なし"@,
        Some(m) => if m == 0 {
            "すぐに提供できます"@
        } else {
            "約"@ + decimal(m) + "分"@
        },
    }
}

/// The wait for one piece of `flavor`, under the flavor's name.
pub open spec fn walk_in_entry(flavor: Flavor, minutes: Option<nat>) -> Seq<char> {
    "【"@ + flavor_name(flavor) + "】\n"@ + walk_in_text(minutes)
}

/// The waits for one piece of each flavor as a text: a heading, an empty
/// line, and an entry for each flavor in menu order.
pub open spec fn wait_times_text_of(waits: PerFlavor<Option<nat>>) -> Seq<char> {
    joined(
        seq![
            "⏱️ 現在の待ち時間"@,
            ""@,
            walk_in_entry(Flavor::Tsubuan, waits.tsubuan),
            walk_in_entry(Flavor::Custard, waits.custard),
            walk_in_entry(Flavor::Kurikinton, waits.kurikinton),
        ],
        "\n"@,
    )
}

/// The waits of the answer as a text.
pub open spec fn wait_times_text(response: WaitTimeResponse) -> Seq<char> {
    wait_times_text_of(
        PerFlavor {
            tsubuan: minutes_view(response.wait_times.tsubuan),
            custard: minutes_view(response.wait_times.custard),
            kurikinton: minutes_view(response.wait_times.kurikinton),
        },
    )
}

/// How the wait for one piece is shown.
pub fn wait_time_text(minutes: Option<u128>) -> (r: String)
    ensures
        r@ == walk_in_text(minutes_view(minutes)),
{
    match minutes {
        None => String::from_str("提供なし"),
        Some(m) => {
            if m == 0 {
                String::from_str("すぐに提供できます")
            } else {
                let mut r = String::from_str("約");
                push_decimal(&mut r, m);
                r.append("分");
                r
            }
        },
    }
}

/// The wait for one piece of `flavor`, under the flavor's name.
fn walk_in_label(flavor: Flavor, minutes: Option<u128>) -> (r: String)
    ensures
        r@ == walk_in_entry(flavor, minutes_view(minutes)),
{
    let mut r = String::from_str("【");
    r.append(flavor.name());
    r.append("】\n");
    r.append(wait_time_text(minutes).as_str());
    r
}

/// The waits for one piece of each flavor as a text.
pub fn format_wait_times(wait_times: &WaitTimeResponse) -> (r: String)
    ensures
        r@ == wait_times_text(*wait_times),
{
    let mut lines: Vec<String> = Vec::new();
    lines.push(String::from_str("⏱️ 現在の待ち時間"));
    lines.push(String::from_str(""));
    lines.push(walk_in_label(Flavor::Tsubuan, wait_times.wait_times.tsubuan));
    lines.push(walk_in_label(Flavor::Custard, wait_times.wait_times.custard));
    lines.push(walk_in_label(Flavor::Kurikinton, wait_times.wait_times.kurikinton));
    proof {
        assert(line_views(lines@) =~= seq![
            "⏱️ 現在の待ち時間"@,
            ""@,
            walk_in_entry(Flavor::Tsubuan, minutes_view(wait_times.wait_times.tsubuan)),
            walk_in_entry(Flavor::Custard, minutes_view(wait_times.wait_times.custard)),
            walk_in_entry(Flavor::Kurikinton, minutes_view(wait_times.wait_times.kurikinton)),
        ]);
    }
    join(&lines, "\n")
}

/// The reply to a button of the menu that needs no look at the records.
pub open spec fn static_reply_text(postback_data: Seq<char>) -> Seq<char> {
    if postback_data == "action=register_notification"@ {
        "注文番号を半角数字で続いて入力↓\n例:'!adding_notification: 123'"@
    } else if postback_data == "action=show_menu"@ {
        "🐟メニュー☆彡\n- つぶあん (200円)\n- カスタード (200円)\n- 栗きんとん (200円)"@
    } else {
        "不明な操作です: "@ + postback_data
    }
}

/// The reply to a button of the menu that needs no look at the records.
pub fn get_static_reply_text(postback_data: &str) -> (r: String)
    ensures
        r@ == static_reply_text(postback_data@),
{
    if same_text(postback_data, "action=register_notification") {
        String::from_str("注文番号を半角数字で続いて入力↓\n例:'!adding_notification: 123'")
    } else if same_text(postback_data, "action=show_menu") {
        String::from_str(
            "🐟メニュー☆彡\n- つぶあん (200円)\n- カスタード (200円)\n- 栗きんとん (200円)",
        )
    } else {
        let mut r = String::from_str("不明な操作です: ");
        r.append(postback_data);
        r
    }
}

/// What is sent back into the chat.
#[derive(Debug)]
pub enum Reply {
    /// A plain text.
    Text(String),
    /// The question whether the sender wants to be told of an order, with
    /// what the buttons for yes and for no send back.
    Confirm { text: String, yes: String, no: String },
    /// The word that the sender will be told of an order, with what the
    /// button for a look at the order sends back.
    Registered { text: String, check: String },
    /// The picture that shows the way to the stall.
    AccessImage,
}

/// A [`Reply`] as contracts speak of it.
pub enum ReplyView {
    Text(Seq<char>),
    Confirm { text: Seq<char>, yes: Seq<char>, no: Seq<char> },
    Registered { text: Seq<char>, check: Seq<char> },
    AccessImage,
}

impl View for Reply {
    type V = ReplyView;

    open spec fn view(&self) -> ReplyView {
        match *self {
            Reply::Text(text) => ReplyView::Text(text@),
            Reply::Confirm { text, yes, no } => ReplyView::Confirm {
                text: text@,
                yes: yes@,
                no: no@,
            },
            Reply::Registered { text, check } => ReplyView::Registered {
                text: text@,
                check: check@,
            },
            Reply::AccessImage => ReplyView::AccessImage,
        }
    }
}

/// The view of the reply, if there is one.
pub open spec fn reply_view(reply: Option<Reply>) -> Option<ReplyView> {
    match reply {
        Some(reply) => Some(reply@),
        None => None,
    }
}

/// What a press of a button asks for.
#[derive(Clone, Copy, Debug, PartialEq, Eq, Structural)]
pub enum Postback {
    /// A look at the order with this number.
    CheckOrder(u32),
    /// To be told when the order with this number is ready.
    ConfirmNotification(u32),
    /// Not to be told after all.
    CancelNotification,
    /// The way to the stall.
    ShowAccess,
    /// The waits for one piece of each flavor.
    ShowWaittime,
    /// Anything else.
    Other,
}

/// What the button's data asks for.
pub open spec fn postback_of(data: Seq<char>) -> Postback {
    if has_prefix(data, "check_order_"@) && number_in(
        data.skip("check_order_"@.len() as int),
        u32::MAX as nat,
    ).is_some() {
        Postback::CheckOrder(
            number_in(data.skip("check_order_"@.len() as int), u32::MAX as nat).unwrap() as u32,
        )
    } else if has_prefix(data, "notify_confirm_"@) && number_in(
        data.skip("notify_confirm_"@.len() as int),
        u32::MAX as nat,
    ).is_some() {
        Postback::ConfirmNotification(
            number_in(data.skip("notify_confirm_"@.len() as int), u32::MAX as nat).unwrap() as u32,
        )
    } else if has_prefix(data, "notify_cancel_"@) {
        Postback::CancelNotification
    } else if data == "action=show_access"@ {
        Postback::ShowAccess
    } else if data == "action=show_waittime"@ {
        Postback::ShowWaittime
    } else {
        Postback::Other
    }
}

/// The number that follows `prefix`, if the characters begin with the
/// prefix and go on with a number and nothing else.
fn number_after(chars: &Vec<char>, prefix: &str) -> (r: Option<u32>)
    ensures
        match r {
            Some(n) => has_prefix(chars@, prefix@) && number_in(
                chars@.skip(prefix@.len() as int),
                u32::MAX as nat,
            ) == Some(n as nat),
            None => !(has_prefix(chars@, prefix@) && number_in(
                chars@.skip(prefix@.len() as int),
                u32::MAX as nat,
            ).is_some()),
        },
{
    match starts_with(chars, prefix) {
        Some(n) => {
            proof {
                assert(chars@.subrange(n as int, chars.len() as int) =~= chars@.skip(n as int));
            }
            match read_number(chars, n, chars.len(), 0xffff_ffff) {
                Some(value) => Some(value as u32),
                None => None,
            }
        },
        None => None,
    }
}

/// Reads what a press of a button asks for.
pub fn read_postback(postback_data: &str) -> (r: Postback)
    ensures
        r == postback_of(postback_data@),
{
    let chars = chars_of(postback_data);
    if let Some(id) = number_after(&chars, "check_order_") {
        return Postback::CheckOrder(id);
    }
    if let Some(id) = number_after(&chars, "notify_confirm_") {
        return Postback::ConfirmNotification(id);
    }
    if starts_with(&chars, "notify_cancel_").is_some() {
        return Postback::CancelNotification;
    }
    if same_text(postback_data, "action=show_access") {
        return Postback::ShowAccess;
    }
    if same_text(postback_data, "action=show_waittime") {
        return Postback::ShowWaittime;
    }
    Postback::Other
}

/// What is said of an order with which something is wrong.
pub open spec fn order_error_text(id: u32, reason: Seq<char>) -> Seq<char> {
    "❌ 注文 "@ + decimal(id as nat) + " "@ + reason + "。"@
}

/// What is said of an order with which something is wrong.
fn order_error(id: u32, reason: &str) -> (r: String)
    ensures
        r@ == order_error_text(id, reason@),
{
    let mut r = String::from_str("❌ 注文 ");
    push_decimal(&mut r, id as u128);
    r.append(" ");
    r.append(reason);
    r.append("。");
    r
}

/// The answer to somebody who asks how an order stands: the order written
/// out, or the word that there is no such order. `None` where the time of
/// the order cannot be written out as a date.
pub open spec fn check_order_reply(data: DataView, id: u32) -> Option<ReplyView> {
    match position_of(data.orders, id) {
        Some(i) => {
            let details = details_of(data, data.orders[i]);
            match utc_text(details.ordered_at.secs, details.ordered_at.nanos, ordered_at_pattern()) {
                Some(ordered_at) => Some(ReplyView::Text(order_details_text(details, ordered_at))),
                None => None,
            }
        },
        None => Some(ReplyView::Text(order_error_text(id, "が見つかりません"@))),
    }
}

/// Answers somebody who asks how an order stands.
fn handle_check_order_status(registry: &AppRegistry, order_id: u32) -> (r: Option<Reply>)
    ensures
        reply_view(r) == check_order_reply(registry@.data, order_id),
{
    match registry.get_order_details(order_id) {
        Some(details) => match format_order_details(&details) {
            Some(text) => Some(Reply::Text(text)),
            None => None,
        },
        None => Some(Reply::Text(order_error(order_id, "が見つかりません"))),
    }
}

/// What the button for a look at the order with this number sends back.
pub open spec fn check_order_data(id: u32) -> Seq<char> {
    "check_order_"@ + decimal(id as nat)
}

/// The word that the sender will be told of the order.
pub open spec fn registered_text(id: u32) -> Seq<char> {
    "✅ 注文 #"@ + decimal(id as nat)
        + " の通知を登録しました！\n準備ができたらメッセージをお送りします。"@
}

/// The answer to somebody who wants to be told of an order, once the
/// registry has been asked to add them: the word that they will be, or,
/// where the sender is not known or there is no such order, that it did
/// not work.
pub open spec fn confirm_reply(data: DataView, id: u32, user_id: Option<Seq<char>>) -> ReplyView {
    match user_id {
        None => ReplyView::Text("❌ ユーザー情報の取得に失敗しました。"@),
        Some(_) => if position_of(data.orders, id).is_some() {
            ReplyView::Registered { text: registered_text(id), check: check_order_data(id) }
        } else {
            ReplyView::Text("❌ エラー：通知の登録に失敗しました。"@)
        },
    }
}

/// The registry after somebody asked to be told of an order: the sender,
/// if known, is among the targets of the order.
pub open spec fn confirm_outcome(
    registry: RegistryView,
    id: u32,
    user_id: Option<Seq<char>>,
) -> RegistryView {
    match user_id {
        None => registry,
        Some(user_id) => target_added(registry, id, NotifyView::Line { user_id }),
    }
}

/// The text, if there is one.
pub open spec fn text_view(text: Option<String>) -> Option<Seq<char>> {
    match text {
        Some(text) => Some(text@),
        None => None,
    }
}

/// Adds the sender to those who are told of an order, and says how
/// that went.
fn handle_notification_confirm(
    registry: &mut AppRegistry,
    order_id: u32,
    user_id: Option<String>,
) -> (r: Reply)
    ensures
        r@ == confirm_reply(old(registry)@.data, order_id, text_view(user_id)),
        final(registry)@ == confirm_outcome(old(registry)@, order_id, text_view(user_id)),
{
    let user_id = match user_id {
        Some(user_id) => user_id,
        None => {
            return Reply::Text(String::from_str("❌ ユーザー情報の取得に失敗しました。"));
        },
    };
    if registry.add_notification(order_id, Notify::Line { user_id }).is_some() {
        let mut text = String::from_str("✅ 注文 #");
        push_decimal(&mut text, order_id as u128);
        text.append(" の通知を登録しました！\n準備ができたらメッセージをお送りします。");
        let mut check = String::from_str("check_order_");
        push_decimal(&mut check, order_id as u128);
        Reply::Registered { text, check }
    } else {
        Reply::Text(String::from_str("❌ エラー：通知の登録に失敗しました。"))
    }
}

/// The answer to a press of a button.
pub open spec fn postback_reply(
    registry: RegistryView,
    postback_data: Seq<char>,
    user_id: Option<Seq<char>>,
) -> Option<ReplyView> {
    match postback_of(postback_data) {
        Postback::CheckOrder(id) => check_order_reply(registry.data, id),
        Postback::ConfirmNotification(id) => Some(confirm_reply(registry.data, id, user_id)),
        Postback::CancelNotification => Some(
            ReplyView::Text("通知の登録をキャンセルしました。"@),
        ),
        Postback::ShowAccess => Some(ReplyView::AccessImage),
        Postback::ShowWaittime => Some(
            ReplyView::Text(wait_times_text_of(walk_in_waits(registry.data))),
        ),
        Postback::Other => Some(ReplyView::Text(static_reply_text(postback_data))),
    }
}

/// The registry after a press of a button: it changes only where somebody
/// asks to be told of an order.
pub open spec fn postback_outcome(
    registry: RegistryView,
    postback_data: Seq<char>,
    user_id: Option<Seq<char>>,
) -> RegistryView {
    match postback_of(postback_data) {
        Postback::ConfirmNotification(id) => confirm_outcome(registry, id, user_id),
        _ => registry,
    }
}

/// Answers a press of a button. `None` where the answer would hold a
/// time that cannot be written out as a date.
pub fn handle_postback(registry: &mut AppRegistry, postback_data: &str, user_id: Option<String>) -> (r:
    Option<Reply>)
    ensures
        reply_view(r) == postback_reply(old(registry)@, postback_data@, text_view(user_id)),
        final(registry)@ == postback_outcome(old(registry)@, postback_data@, text_view(user_id)),
{
    match read_postback(postback_data) {
        Postback::CheckOrder(id) => handle_check_order_status(registry, id),
        Postback::ConfirmNotification(id) => Some(
            handle_notification_confirm(registry, id, user_id),
        ),
        Postback::CancelNotification => Some(
            Reply::Text(String::from_str("通知の登録をキャンセルしました。")),
        ),
        Postback::ShowAccess => Some(Reply::AccessImage),
        Postback::ShowWaittime => {
            let waits = registry.get_current_wait_times();
            proof {
                assert(minutes_view(waits.wait_times.at(Flavor::Tsubuan)) == walk_in_wait(
                    registry@.data,
                    Flavor::Tsubuan,
                ));
                assert(minutes_view(waits.wait_times.at(Flavor::Custard)) == walk_in_wait(
                    registry@.data,
                    Flavor::Custard,
                ));
                assert(minutes_view(waits.wait_times.at(Flavor::Kurikinton)) == walk_in_wait(
                    registry@.data,
                    Flavor::Kurikinton,
                ));
            }
            Some(Reply::Text(format_wait_times(&waits)))
        },
        Postback::Other => Some(Reply::Text(get_static_reply_text(postback_data))),
    }
}

/// The answer to a plain message.
pub fn handle_text_message(_text: &str) -> (r: Reply)
    ensures
        r@ == ReplyView::Text("たいやきくんはダンスが上手！"@),
{
    Reply::Text(String::from_str("たいやきくんはダンスが上手！"))
}

/// One item as a line of the question.
pub open spec fn item_bullet(item: Item) -> Seq<char> {
    "・"@ + flavor_name(item.flavor) + " x"@ + decimal(item.quantity as nat)
}

/// The lines of the items in the question.
pub open spec fn item_bullets(items: Seq<Item>) -> Seq<Seq<char>> {
    items.map_values(|item: Item| item_bullet(item))
}

/// The pattern under which the time of an order is written in the
/// question.
pub open spec fn asked_at_pattern() -> Seq<char> {
    "%Y年%m月%d日 %H:%M:%S"@
}

/// The question whether the sender wants to be told of the order, given
/// the time of the order as text.
pub open spec fn confirm_text(details: OrderDetailsView, ordered_at: Seq<char>) -> Seq<char> {
    "📝 注文 #"@ + decimal(details.id as nat)
        + " の通知設定\n\n以下の注文で通知を登録しますか？\n\n【商品】\n"@ + joined(
        item_bullets(details.items),
        "\n"@,
    ) + "\n\n【注文時刻】\n"@ + ordered_at
}

/// What the button for yes sends back.
pub open spec fn notify_confirm_data(id: u32) -> Seq<char> {
    "notify_confirm_"@ + decimal(id as nat)
}

/// What the button for no sends back.
pub open spec fn notify_cancel_data(id: u32) -> Seq<char> {
    "notify_cancel_"@ + decimal(id as nat)
}

/// The question whether the sender wants to be told of the order, with
/// what its buttons send back.
pub open spec fn confirm_question(details: OrderDetailsView, ordered_at: Seq<char>) -> ReplyView {
    ReplyView::Confirm {
        text: confirm_text(details, ordered_at),
        yes: notify_confirm_data(details.id),
        no: notify_cancel_data(details.id),
    }
}

/// Puts the question whether the sender wants to be told of the order,
/// given the time of the order as text.
pub fn create_notification_confirm_template(details: &OrderDetailsResponse, ordered_at: &str) -> (r:
    Reply)
    ensures
        r@ == confirm_question(details@, ordered_at@),
{
    let mut lines: Vec<String> = Vec::new();
    let mut k: usize = 0;
    while k < details.items.len()
        invariant
            k <= details.items.len(),
            line_views(lines@) == item_bullets(details.items@.take(k as int)),
        decreases details.items.len() - k,
    {
        let item = &details.items[k];
        let mut label = String::from_str("・");
        label.append(item.flavor.name());
        label.append(" x");
        push_decimal(&mut label, item.quantity as u128);
        let ghost before = lines@;
        lines.push(label);
        proof {
            assert(line_views(lines@) =~= line_views(before).push(label@));
            assert(item_bullets(details.items@.take(k + 1)) =~= item_bullets(
                details.items@.take(k as int),
            ).push(item_bullet(details.items@[k as int])));
        }
        k += 1;
    }
    proof {
        assert(details.items@.take(k as int) =~= details.items@);
    }
    let mut text = String::from_str("📝 注文 #");
    push_decimal(&mut text, details.id as u128);
    text.append(" の通知設定\n\n以下の注文で通知を登録しますか？\n\n【商品】\n");
    text.append(join(&lines, "\n").as_str());
    text.append("\n\n【注文時刻】\n");
    text.append(ordered_at);
    let mut yes = String::from_str("notify_confirm_");
    push_decimal(&mut yes, details.id as u128);
    let mut no = String::from_str("notify_cancel_");
    push_decimal(&mut no, details.id as u128);
    Reply::Confirm { text, yes, no }
}

/// What is said of an order that is completed or cancelled.
pub open spec fn closed_order_text(id: u32) -> Seq<char> {
    "❌ 注文 "@ + decimal(id as nat) + " はすでに完了/キャンセルされています。"@
}

/// The answer to somebody who names an order of which they want to be
/// told: the question whether that is the order, or what is wrong. `None`
/// where the time of the order cannot be written out as a date.
pub open spec fn adding_notification_reply(
    data: DataView,
    word: Seq<char>,
    has_user: bool,
) -> Option<ReplyView> {
    match number_in(word, u32::MAX as nat) {
        None => Some(
            ReplyView::Text(
                "❌ 不正な注文番号です。\n半角数字で入力してください。\n例: !adding_notification: 123"@,
            ),
        ),
        Some(number) => {
            let id = number as u32;
            if !has_user {
                Some(ReplyView::Text("❌ ユーザー情報の取得に失敗しました。"@))
            } else {
                match position_of(data.orders, id) {
                    None => Some(ReplyView::Text(order_error_text(id, "が見つかりません"@))),
                    Some(i) => {
                        let details = details_of(data, data.orders[i]);
                        if details.status == OrderStatus::Completed || details.status
                            == OrderStatus::Cancelled {
                            Some(ReplyView::Text(closed_order_text(id)))
                        } else {
                            match utc_text(
                                details.ordered_at.secs,
                                details.ordered_at.nanos,
                                asked_at_pattern(),
                            ) {
                                Some(ordered_at) => Some(confirm_question(details, ordered_at)),
                                None => None,
                            }
                        }
                    },
                }
            }
        },
    }
}

/// The answer to a command.
pub open spec fn command_reply(data: DataView, command: Seq<char>, has_user: bool) -> Option<
    ReplyView,
> {
    if has_prefix(command, "!adding_notification:"@) {
        adding_notification_reply(
            data,
            trimmed(command.skip("!adding_notification:"@.len() as int)),
            has_user,
        )
    } else {
        Some(ReplyView::Text("不明なコマンドです。\nリッチメニューから操作してください。"@))
    }
}

/// Answers a command, which is a message that begins with `!`. `None`
/// where the answer would hold a time that cannot be written out as a
/// date.
pub fn handle_command(registry: &AppRegistry, command: &str, has_user: bool) -> (r: Option<Reply>)
    ensures
        reply_view(r) == command_reply(registry@.data, command@, has_user),
{
    let chars = chars_of(command);
    let start = match starts_with(&chars, "!adding_notification:") {
        Some(n) => n,
        None => {
            return Some(
                Reply::Text(
                    String::from_str("不明なコマンドです。\nリッチメニューから操作してください。"),
                ),
            );
        },
    };
    let (a, b) = trim(&chars, start, chars.len());
    proof {
        assert(chars@.subrange(start as int, chars.len() as int) =~= command@.skip(start as int));
    }
    let order_id: u32 = match read_number(&chars, a, b, 0xffff_ffff) {
        Some(value) => value as u32,
        None => {
            return Some(
                Reply::Text(
                    String::from_str(
                        "❌ 不正な注文番号です。\n半角数字で入力してください。\n例: !adding_notification: 123",
                    ),
                ),
            );
        },
    };
    if !has_user {
        return Some(Reply::Text(String::from_str("❌ ユーザー情報の取得に失敗しました。")));
    }
    match registry.get_order_details(order_id) {
        Some(details) => {
            if details.status == OrderStatus::Completed || details.status
                == OrderStatus::Cancelled {
                let mut text = String::from_str("❌ 注文 ");
                push_decimal(&mut text, order_id as u128);
                text.append(" はすでに完了/キャンセルされています。");
                Some(Reply::Text(text))
            } else {
                match format_utc(
                    details.ordered_at.secs,
                    details.ordered_at.nanos,
                    "%Y年%m月%d日 %H:%M:%S",
                ) {
                    Some(ordered_at) => Some(
                        create_notification_confirm_template(&details, ordered_at.as_str()),
                    ),
                    None => None,
                }
            }
        },
        None => Some(Reply::Text(order_error(order_id, "が見つかりません"))),
    }
}

} // verus!
