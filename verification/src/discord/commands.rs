//! What the commands read and what they answer.

use vstd::prelude::*;
use crate::api::handler::display_ids;
use crate::api::model::{
    DisplayOrder, OrderDetailsView, WaitTimeResponse, minutes_view, read_status, status_named,
};
use crate::app::AppRegistry;
use crate::changes::position_of;
use crate::data::{
    DataView, Flavor, FlavorConfig, Item, Order, OrderStatus, OrderView, PerFlavor, flavor_name,
    order_views,
};
use crate::line::commands::{wait_time_text, walk_in_text};
use crate::text::{
    chars_of, decimal, find_char, first_index, join, joined, lemma_first_index, line_views,
    lowercase, number_in, push_decimal, push_signed_decimal, read_number, same_text, signed_decimal,
    split_on, to_decimal, to_lowercase, trim, trimmed,
};

verus! {

/// A flavor as it is offered for choice in a command.
#[derive(Clone, Copy, Debug)]
pub enum FlavorChoice {
    Tsubuan,
    Custard,
    Kurikinton,
}

/// The flavor that was chosen.
pub open spec fn chosen_flavor(choice: FlavorChoice) -> Flavor {
    match choice {
        FlavorChoice::Tsubuan => Flavor::Tsubuan,
        FlavorChoice::Custard => Flavor::Custard,
        FlavorChoice::Kurikinton => Flavor::Kurikinton,
    }
}

impl From<FlavorChoice> for Flavor {
    fn from(choice: FlavorChoice) -> (r: Flavor) {
        match choice {
            FlavorChoice::Tsubuan => Flavor::Tsubuan,
            FlavorChoice::Custard => Flavor::Custard,
            FlavorChoice::Kurikinton => Flavor::Kurikinton,
        }
    }
}

impl vstd::std_specs::convert::FromSpecImpl<FlavorChoice> for Flavor {
    open spec fn obeys_from_spec() -> bool {
        true
    }

    open spec fn from_spec(choice: FlavorChoice) -> Flavor {
        chosen_flavor(choice)
    }
}

/// The flavor that the word names, in lower case and Latin letters.
pub open spec fn flavor_named(word: Seq<char>) -> Option<Flavor> {
    if word == "tsubuan"@ {
        Some(Flavor::Tsubuan)
    } else if word == "custard"@ {
        Some(Flavor::Custard)
    } else if word == "kurikinton"@ {
        Some(Flavor::Kurikinton)
    } else {
        None
    }
}

/// The flavor that the word names, in lower case and Latin letters.
pub fn flavor_of_word(word: &str) -> (r: Option<Flavor>)
    ensures
        r == flavor_named(word@),
{
    if same_text(word, "tsubuan") {
        Some(Flavor::Tsubuan)
    } else if same_text(word, "custard") {
        Some(Flavor::Custard)
    } else if same_text(word, "kurikinton") {
        Some(Flavor::Kurikinton)
    } else {
        None
    }
}

/// What is said of a word that names no flavor.
pub open spec fn invalid_flavor() -> Seq<char> {
    "不正なフレーバーです"@
}

/// The view of the outcome of reading a flavor.
pub open spec fn flavor_outcome(r: Result<Flavor, &'static str>) -> Result<Flavor, Seq<char>> {
    match r {
        Ok(flavor) => Ok(flavor),
        Err(e) => Err(e@),
    }
}

/// Reads a flavor from its name in Latin letters, in upper or lower case.
pub fn parse_flavor(s: &str) -> (r: Result<Flavor, &'static str>)
    ensures
        flavor_outcome(r) == match flavor_named(lowercase(s@)) {
            Some(flavor) => Ok::<Flavor, Seq<char>>(flavor),
            None => Err::<Flavor, Seq<char>>(invalid_flavor()),
        },
{
    let word = to_lowercase(s);
    match flavor_of_word(word.as_str()) {
        Some(flavor) => Ok(flavor),
        None => Err("不正なフレーバーです"),
    }
}

/// What can be wrong with a list of items.
#[derive(Debug)]
pub enum ItemsError {
    /// A piece of the list is not a flavor, a colon and a quantity.
    Format,
    /// This names no flavor.
    Flavor(String),
    /// This is no quantity.
    Quantity(String),
}

/// An [`ItemsError`] as contracts speak of it.
pub enum ItemsErrorView {
    Format,
    Flavor(Seq<char>),
    Quantity(Seq<char>),
}

impl View for ItemsError {
    type V = ItemsErrorView;

    open spec fn view(&self) -> ItemsErrorView {
        match *self {
            ItemsError::Format => ItemsErrorView::Format,
            ItemsError::Flavor(word) => ItemsErrorView::Flavor(word@),
            ItemsError::Quantity(word) => ItemsErrorView::Quantity(word@),
        }
    }
}

/// The item that a piece of the list stands for: the name of a flavor, a
/// colon and a quantity. White space around the piece does not count;
/// white space within it does.
pub open spec fn item_in(piece: Seq<char>) -> Result<Item, ItemsErrorView> {
    let text = trimmed(piece);
    let colon = first_index(text, ':');
    let name = text.take(colon);
    let number = text.skip(colon + 1);
    if colon >= text.len() || first_index(number, ':') < number.len() {
        Err(ItemsErrorView::Format)
    } else {
        match flavor_named(lowercase(name)) {
            None => Err(ItemsErrorView::Flavor(name)),
            Some(flavor) => match number_in(number, usize::MAX as nat) {
                None => Err(ItemsErrorView::Quantity(number)),
                Some(quantity) => Ok(Item { flavor, quantity: quantity as usize }),
            },
        }
    }
}

/// `found`, followed by what the rest of the list gave.
pub open spec fn items_followed_by(
    found: Seq<Item>,
    rest: Result<Seq<Item>, ItemsErrorView>,
) -> Result<Seq<Item>, ItemsErrorView> {
    match rest {
        Ok(more) => Ok(found + more),
        Err(e) => Err(e),
    }
}

/// The items that the pieces stand for, in their sequence, or what is
/// wrong with the first piece that stands for none.
pub open spec fn items_in(pieces: Seq<Seq<char>>) -> Result<Seq<Item>, ItemsErrorView>
    decreases pieces.len(),
{
    if pieces.len() == 0 {
        Ok(Seq::empty())
    } else {
        match item_in(pieces[0]) {
            Ok(item) => items_followed_by(seq![item], items_in(pieces.skip(1))),
            Err(e) => Err(e),
        }
    }
}

/// The items that a list stands for, as in `tsubuan:2,custard:1`.
pub open spec fn item_list(s: Seq<char>) -> Result<Seq<Item>, ItemsErrorView> {
    items_in(split_on(s, ','))
}

/// The view of the outcome of reading an item.
pub open spec fn item_outcome(r: Result<Item, ItemsError>) -> Result<Item, ItemsErrorView> {
    match r {
        Ok(item) => Ok(item),
        Err(e) => Err(e@),
    }
}

/// The view of the outcome of reading a list of items.
pub open spec fn items_outcome(r: Result<Vec<Item>, ItemsError>) -> Result<
    Seq<Item>,
    ItemsErrorView,
> {
    match r {
        Ok(items) => Ok(items@),
        Err(e) => Err(e@),
    }
}

/// Reads the item that the characters from `from` up to `to` stand for.
fn parse_item(s: &str, chars: &Vec<char>, from: usize, to: usize) -> (r: Result<Item, ItemsError>)
    requires
        chars@ == s@,
        from <= to <= chars.len(),
    ensures
        item_outcome(r) == item_in(chars@.subrange(from as int, to as int)),
{
    let (a, b) = trim(chars, from, to);
    let ghost text = chars@.subrange(a as int, b as int);
    let colon: usize = find_char(chars, a, b, ':');
    if colon == b {
        return Err(ItemsError::Format);
    }
    let ghost name = chars@.subrange(a as int, colon as int);
    let ghost number = chars@.subrange(colon + 1, b as int);
    proof {
        assert(text.take(colon - a) =~= name);
        assert(text.skip(colon - a + 1) =~= number);
    }
    if find_char(chars, colon + 1, b, ':') < b {
        return Err(ItemsError::Format);
    }
    let flavor = match parse_flavor(s.substring_char(a, colon)) {
        Ok(flavor) => flavor,
        Err(_) => {
            return Err(ItemsError::Flavor(String::from_str(s.substring_char(a, colon))));
        },
    };
    match read_number(chars, colon + 1, b, usize::MAX as u64) {
        Some(quantity) => Ok(Item { flavor, quantity: quantity as usize }),
        None => Err(ItemsError::Quantity(String::from_str(s.substring_char(colon + 1, b)))),
    }
}

/// Reads a list of items with commas between them, as in
/// `tsubuan:2,custard:1`.
pub fn parse_items(items: &str) -> (r: Result<Vec<Item>, ItemsError>)
    ensures
        items_outcome(r) == item_list(items@),
{
    let chars = chars_of(items);
    let len: usize = chars.len();
    let mut found: Vec<Item> = Vec::new();
    let mut start: usize = 0;
    let mut done = false;
    proof {
        assert(chars@.subrange(0, len as int) =~= items@);
        match items_in(split_on(items@, ',')) {
            Ok(more) => {
                assert(found@ + more =~= more);
            },
            Err(_) => {},
        }
    }
    while !done
        invariant
            chars@ == items@,
            len == chars.len(),
            start <= len,
            !done ==> item_list(items@) == items_followed_by(
                found@,
                items_in(split_on(chars@.subrange(start as int, len as int), ',')),
            ),
            done ==> item_list(items@) == Ok::<Seq<Item>, ItemsErrorView>(found@),
        decreases len - start + if done { 0int } else { 1int },
    {
        let end: usize = find_char(&chars, start, len, ',');
        let ghost rest = chars@.subrange(start as int, len as int);
        let ghost piece = chars@.subrange(start as int, end as int);
        let ghost tail = if end < len {
            split_on(chars@.subrange(end + 1, len as int), ',')
        } else {
            Seq::empty()
        };
        proof {
            lemma_first_index(rest, ',');
            if end < len {
                assert(rest.take(end - start) =~= piece);
                assert(rest.skip(end - start + 1) =~= chars@.subrange(end + 1, len as int));
            } else {
                assert(rest =~= piece);
            }
            assert(split_on(rest, ',') =~= seq![piece] + tail);
            assert((seq![piece] + tail)[0] == piece);
            assert((seq![piece] + tail).skip(1) =~= tail);
            if end == len {
                assert(items_in(tail) == Ok::<Seq<Item>, ItemsErrorView>(Seq::empty()));
            }
        }
        let ghost before = found@;
        match parse_item(items, &chars, start, end) {
            Ok(item) => {
                found.push(item);
                proof {
                    match items_in(tail) {
                        Ok(more) => {
                            assert(before + (seq![item] + more) =~= found@ + more);
                        },
                        Err(_) => {},
                    }
                }
            },
            Err(e) => {
                return Err(e);
            },
        }
        if end == len {
            proof {
                assert(found@ + Seq::<Item>::empty() =~= found@);
            }
            done = true;
        } else {
            start = end + 1;
        }
    }
    Ok(found)
}

/// What is said of a list of items that cannot be read. `example` is a
/// list as it should look.
pub open spec fn items_error_text(error: ItemsErrorView, example: Seq<char>) -> Seq<char> {
    match error {
        ItemsErrorView::Format => "アイテムのフォーマットが不正です。例: `"@ + example + "`"@,
        ItemsErrorView::Flavor(word) => invalid_flavor() + ": `"@ + word + "`"@,
        ItemsErrorView::Quantity(word) => "不正な数量です: `"@ + word + "`"@,
    }
}

impl ItemsError {
    /// What is said of the error. `example` is a list as it should look.
    pub fn message(&self, example: &str) -> (r: String)
        ensures
            r@ == items_error_text(self@, example@),
    {
        match self {
            ItemsError::Format => {
                let mut r = String::from_str("アイテムのフォーマットが不正です。例: `");
                r.append(example);
                r.append("`");
                r
            },
            ItemsError::Flavor(word) => {
                let mut r = String::from_str("不正なフレーバーです");
                r.append(": `");
                r.append(word.as_str());
                r.append("`");
                r
            },
            ItemsError::Quantity(word) => {
                let mut r = String::from_str("不正な数量です: `");
                r.append(word.as_str());
                r.append("`");
                r
            },
        }
    }
}

/// The numbers as texts.
pub open spec fn id_texts(ids: Seq<u32>) -> Seq<Seq<char>> {
    ids.map_values(|id: u32| decimal(id as nat))
}

/// The numbers in a row with `separator` between them, or the word that
/// there are none.
pub open spec fn id_row(ids: Seq<u32>, separator: Seq<char>) -> Seq<char> {
    if ids.len() == 0 {
        "なし"@
    } else {
        joined(id_texts(ids), separator)
    }
}

/// The numbers in a row with `separator` between them, or the word that
/// there are none.
pub fn id_row_text(ids: &Vec<u32>, separator: &str) -> (r: String)
    ensures
        r@ == id_row(ids@, separator@),
{
    if ids.len() == 0 {
        return String::from_str("なし");
    }
    let mut texts: Vec<String> = Vec::new();
    let mut i: usize = 0;
    while i < ids.len()
        invariant
            i <= ids.len(),
            line_views(texts@) == id_texts(ids@.take(i as int)),
        decreases ids.len() - i,
    {
        let text = to_decimal(ids[i] as u128);
        let ghost before = texts@;
        texts.push(text);
        proof {
            assert(line_views(texts@) =~= line_views(before).push(text@));
            assert(id_texts(ids@.take(i + 1)) =~= id_texts(ids@.take(i as int)).push(
                decimal(ids@[i as int] as nat),
            ));
        }
        i += 1;
    }
    proof {
        assert(ids@.take(i as int) =~= ids@);
    }
    join(&texts, separator)
}

/// One field of the public display: the numbers of the orders with
/// ` | ` between them, or the word that there are none.
pub fn display(orders: &Vec<DisplayOrder>) -> (r: String)
    ensures
        r@ == id_row(display_ids(orders@), " | "@),
{
    let mut ids: Vec<u32> = Vec::new();
    let mut i: usize = 0;
    while i < orders.len()
        invariant
            i <= orders.len(),
            ids@ == display_ids(orders@).take(i as int),
        decreases orders.len() - i,
    {
        ids.push(orders[i].id);
        proof {
            assert(ids@ =~= display_ids(orders@).take(i + 1));
        }
        i += 1;
    }
    proof {
        assert(display_ids(orders@).take(i as int) =~= display_ids(orders@));
    }
    id_row_text(&ids, " | ")
}

/// What a status is called in the answers to the staff.
pub open spec fn status_name(status: OrderStatus) -> Seq<char> {
    match status {
        OrderStatus::Waiting => "Waiting"@,
        OrderStatus::Cooking => "Cooking"@,
        OrderStatus::Ready => "Ready"@,
        OrderStatus::Completed => "Completed"@,
        OrderStatus::Cancelled => "Cancelled"@,
    }
}

/// What a status is called in the answers to the staff.
fn status_label(status: OrderStatus) -> (r: &'static str)
    ensures
        r@ == status_name(status),
{
    match status {
        OrderStatus::Waiting => "Waiting",
        OrderStatus::Cooking => "Cooking",
        OrderStatus::Ready => "Ready",
        OrderStatus::Completed => "Completed",
        OrderStatus::Cancelled => "Cancelled",
    }
}

/// How an expected wait is shown.
pub open spec fn wait_text(minutes: Option<nat>) -> Seq<char> {
    match minutes {
        Some(m) => decimal(m) + " 分"@,
        None => "N/A"@,
    }
}

/// What a customer is told of an order.
pub open spec fn details_text(details: OrderDetailsView) -> Seq<char> {
    "注文 `"@ + decimal(details.id as nat) + "`: ステータスは `"@ + status_name(details.status)
        + "` です。推定待ち時間: `"@ + wait_text(details.estimated_wait_minutes) + "`."@
}

/// What is said where there is no order with this number.
pub open spec fn not_found_text(id: u32) -> Seq<char> {
    "注文 `"@ + decimal(id as nat) + "` が見つかりません。"@
}

/// What is said where there is no order with this number.
fn not_found(id: u32) -> (r: String)
    ensures
        r@ == not_found_text(id),
{
    let mut r = String::from_str("注文 `");
    push_decimal(&mut r, id as u128);
    r.append("` が見つかりません。");
    r
}

/// The answer to somebody who asks how the order with this number stands.
pub open spec fn details_reply(data: DataView, id: u32) -> Seq<char> {
    match position_of(data.orders, id) {
        Some(i) => details_text(crate::app::details_of(data, data.orders[i])),
        None => not_found_text(id),
    }
}

/// Answers somebody who asks how the order with this number stands.
pub fn details(registry: &AppRegistry, id: u32) -> (r: String)
    ensures
        r@ == details_reply(registry@.data, id),
{
    match registry.get_order_details(id) {
        Some(details) => {
            let mut r = String::from_str("注文 `");
            push_decimal(&mut r, details.id as u128);
            r.append("`: ステータスは `");
            r.append(status_label(details.status));
            r.append("` です。推定待ち時間: `");
            match details.estimated_wait_minutes {
                Some(m) => {
                    push_decimal(&mut r, m);
                    r.append(" 分");
                },
                None => {
                    r.append("N/A");
                },
            }
            r.append("`.");
            proof {
                assert(r@ =~= details_text(details@));
            }
            r
        },
        None => not_found(id),
    }
}

/// The states that the pieces name. White space around a piece does not
/// count, and a piece that names no state is passed over.
pub open spec fn known_statuses_in(pieces: Seq<Seq<char>>) -> Seq<OrderStatus>
    decreases pieces.len(),
{
    if pieces.len() == 0 {
        Seq::empty()
    } else {
        match status_named(trimmed(pieces[0])) {
            Some(status) => seq![status] + known_statuses_in(pieces.skip(1)),
            None => known_statuses_in(pieces.skip(1)),
        }
    }
}

/// The states named in a list with commas between them, without what
/// names none.
pub open spec fn known_statuses(s: Seq<char>) -> Seq<OrderStatus> {
    known_statuses_in(split_on(s, ','))
}

/// Reads the states named in a list with commas between them and passes
/// over what names none.
pub fn read_known_statuses(s: &str) -> (r: Vec<OrderStatus>)
    ensures
        r@ == known_statuses(s@),
{
    let chars = chars_of(s);
    let len: usize = chars.len();
    let mut found: Vec<OrderStatus> = Vec::new();
    let mut start: usize = 0;
    let mut done = false;
    proof {
        assert(chars@.subrange(0, len as int) =~= s@);
        assert(found@ + known_statuses(s@) =~= known_statuses(s@));
    }
    while !done
        invariant
            chars@ == s@,
            len == chars.len(),
            start <= len,
            !done ==> known_statuses(s@) == found@ + known_statuses_in(
                split_on(chars@.subrange(start as int, len as int), ','),
            ),
            done ==> known_statuses(s@) == found@,
        decreases len - start + if done { 0int } else { 1int },
    {
        let end: usize = find_char(&chars, start, len, ',');
        let (a, b) = trim(&chars, start, end);
        let ghost rest = chars@.subrange(start as int, len as int);
        let ghost piece = chars@.subrange(start as int, end as int);
        let ghost tail = if end < len {
            split_on(chars@.subrange(end + 1, len as int), ',')
        } else {
            Seq::empty()
        };
        proof {
            lemma_first_index(rest, ',');
            if end < len {
                assert(rest.take(end - start) =~= piece);
                assert(rest.skip(end - start + 1) =~= chars@.subrange(end + 1, len as int));
            } else {
                assert(rest =~= piece);
            }
            assert(split_on(rest, ',') =~= seq![piece] + tail);
            assert((seq![piece] + tail)[0] == piece);
            assert((seq![piece] + tail).skip(1) =~= tail);
        }
        let ghost before = found@;
        match read_status(&chars, a, b) {
            Some(status) => {
                found.push(status);
                proof {
                    assert(before + (seq![status] + known_statuses_in(tail)) =~= found@
                        + known_statuses_in(tail));
                }
            },
            None => {},
        }
        if end == len {
            proof {
                assert(found@ + Seq::<OrderStatus>::empty() =~= found@);
            }
            done = true;
        } else {
            start = end + 1;
        }
    }
    found
}

/// One item as it is listed for the staff.
pub open spec fn item_entry(item: Item) -> Seq<char> {
    flavor_name(item.flavor) + " x "@ + decimal(item.quantity as nat)
}

/// The items as they are listed for the staff.
pub open spec fn item_entries(items: Seq<Item>) -> Seq<Seq<char>> {
    items.map_values(|item: Item| item_entry(item))
}

/// The items in a row, with `, ` between them.
pub fn item_row(items: &Vec<Item>) -> (r: String)
    ensures
        r@ == joined(item_entries(items@), ", "@),
{
    let mut texts: Vec<String> = Vec::new();
    let mut i: usize = 0;
    while i < items.len()
        invariant
            i <= items.len(),
            line_views(texts@) == item_entries(items@.take(i as int)),
        decreases items.len() - i,
    {
        let mut text = String::from_str(items[i].flavor.name());
        text.append(" x ");
        push_decimal(&mut text, items[i].quantity as u128);
        let ghost before = texts@;
        texts.push(text);
        proof {
            assert(line_views(texts@) =~= line_views(before).push(text@));
            assert(item_entries(items@.take(i + 1)) =~= item_entries(items@.take(i as int)).push(
                item_entry(items@[i as int]),
            ));
        }
        i += 1;
    }
    proof {
        assert(items@.take(i as int) =~= items@);
    }
    join(&texts, ", ")
}

/// Yes or no as it is written.
pub open spec fn bool_text(b: bool) -> Seq<char> {
    if b {
        "true"@
    } else {
        "false"@
    }
}

/// One order as a line of the list for the staff.
pub open spec fn order_line(order: OrderView) -> Seq<char> {
    "ID: `"@ + decimal(order.id as nat) + "` | Status: `"@ + status_name(order.status)
        + "` | Priority: `"@ + bool_text(order.is_priority) + "` | Items: `"@ + joined(
        item_entries(order.items),
        ", "@,
    ) + "`\n"@
}

/// The lines of the first `n` orders, one after the other.
pub open spec fn order_lines(orders: Seq<OrderView>, n: nat) -> Seq<char>
    decreases n,
{
    if n == 0 {
        Seq::empty()
    } else {
        order_lines(orders, (n - 1) as nat) + order_line(orders[n - 1])
    }
}

/// The list of orders for the staff: a line for each of the first ten,
/// the number of those left out, and a word where there is none at all.
pub open spec fn orders_list(orders: Seq<OrderView>) -> Seq<char> {
    if orders.len() == 0 {
        "対象の注文はありません。"@
    } else if orders.len() > 10 {
        order_lines(orders, 10) + "\n... and "@ + decimal((orders.len() - 10) as nat)
            + " more orders."@
    } else {
        order_lines(orders, orders.len())
    }
}

/// The list of orders for the staff.
pub fn get_orders(orders: &Vec<Order>) -> (r: String)
    ensures
        r@ == orders_list(order_views(orders@)),
{
    let ghost views = order_views(orders@);
    if orders.len() == 0 {
        return String::from_str("対象の注文はありません。");
    }
    let shown: usize = if orders.len() > 10 {
        10
    } else {
        orders.len()
    };
    let mut r = String::new();
    let mut i: usize = 0;
    while i < shown
        invariant
            i <= shown <= orders.len(),
            views == order_views(orders@),
            r@ == order_lines(views, i as nat),
        decreases shown - i,
    {
        let order = &orders[i];
        let ghost before = r@;
        r.append("ID: `");
        push_decimal(&mut r, order.id as u128);
        r.append("` | Status: `");
        r.append(status_label(order.status));
        r.append("` | Priority: `");
        r.append(if order.is_priority { "true" } else { "false" });
        r.append("` | Items: `");
        r.append(item_row(&order.items).as_str());
        r.append("`\n");
        proof {
            assert(views[i as int] == order@);
            assert(r@ =~= before + order_line(order@));
        }
        i += 1;
    }
    if orders.len() > 10 {
        r.append("\n... and ");
        push_decimal(&mut r, (orders.len() - 10) as u128);
        r.append(" more orders.");
    }
    r
}

/// What is reported when a batch was recorded: the orders that became
/// ready, and the stock that is left.
pub open spec fn production_report(ready: Seq<u32>, left: Seq<Item>) -> Seq<char> {
    "生産を報告しました。\n新たに準備完了になった注文: "@ + id_row(ready, ", "@)
        + "\n余剰在庫: "@ + if left.len() == 0 {
        "なし"@
    } else {
        joined(item_entries(left), ", "@)
    }
}

/// Reports what recording a batch led to.
pub fn update_production(ready: &Vec<u32>, left: &Vec<Item>) -> (r: String)
    ensures
        r@ == production_report(ready@, left@),
{
    let mut r = String::from_str("生産を報告しました。\n新たに準備完了になった注文: ");
    r.append(id_row_text(ready, ", ").as_str());
    r.append("\n余剰在庫: ");
    if left.len() == 0 {
        r.append("なし");
    } else {
        r.append(item_row(left).as_str());
    }
    r
}

/// How one flavor is baked, as a line of the list for the staff.
pub open spec fn config_line(flavor: Flavor, config: FlavorConfig) -> Seq<char> {
    "- **"@ + flavor_name(flavor) + "**: 調理時間: "@ + decimal(config.cooking_time_minutes as nat)
        + "分, バッチ生産数: "@ + decimal(config.quantity_per_batch as nat) + "\n"@
}

/// How the flavors are baked, as a list for the staff.
pub open spec fn configs_text(configs: PerFlavor<FlavorConfig>) -> Seq<char> {
    "## フレーバー設定一覧\n"@ + config_line(Flavor::Tsubuan, configs.tsubuan) + config_line(
        Flavor::Custard,
        configs.custard,
    ) + config_line(Flavor::Kurikinton, configs.kurikinton)
}

/// Writes how one flavor is baked at the end of `out`.
fn push_config_line(out: &mut String, flavor: Flavor, config: &FlavorConfig)
    ensures
        final(out)@ == old(out)@ + config_line(flavor, *config),
{
    out.append("- **");
    out.append(flavor.name());
    out.append("**: 調理時間: ");
    push_decimal(out, config.cooking_time_minutes as u128);
    out.append("分, バッチ生産数: ");
    push_decimal(out, config.quantity_per_batch as u128);
    out.append("\n");
    proof {
        assert(out@ =~= old(out)@ + config_line(flavor, *config));
    }
}

/// Lists how the flavors are baked.
pub fn get_flavor_configs(configs: &PerFlavor<FlavorConfig>) -> (r: String)
    ensures
        r@ == configs_text(*configs),
{
    let mut r = String::from_str("## フレーバー設定一覧\n");
    push_config_line(&mut r, Flavor::Tsubuan, &configs.tsubuan);
    push_config_line(&mut r, Flavor::Custard, &configs.custard);
    push_config_line(&mut r, Flavor::Kurikinton, &configs.kurikinton);
    r
}

/// What somebody is asked who wants to be told of an order, or what is
/// wrong with the order.
#[derive(Debug)]
pub enum NotifyPrompt {
    /// There is no such order; this is the word for it.
    NotFound(String),
    /// The order is completed or cancelled; this is the word for it.
    Closed(String),
    /// The question, with its heading, the items of the order and the
    /// time at which it was placed.
    Ask { title: String, items: String, ordered_at: String },
}

/// A [`NotifyPrompt`] as contracts speak of it.
pub enum NotifyPromptView {
    NotFound(Seq<char>),
    Closed(Seq<char>),
    Ask { title: Seq<char>, items: Seq<char>, ordered_at: Seq<char> },
}

impl View for NotifyPrompt {
    type V = NotifyPromptView;

    open spec fn view(&self) -> NotifyPromptView {
        match *self {
            NotifyPrompt::NotFound(text) => NotifyPromptView::NotFound(text@),
            NotifyPrompt::Closed(text) => NotifyPromptView::Closed(text@),
            NotifyPrompt::Ask { title, items, ordered_at } => NotifyPromptView::Ask {
                title: title@,
                items: items@,
                ordered_at: ordered_at@,
            },
        }
    }
}

/// One item as a line of the question.
pub open spec fn item_dash(item: Item) -> Seq<char> {
    "- "@ + flavor_name(item.flavor) + " x"@ + decimal(item.quantity as nat)
}

/// The items as lines of the question.
pub open spec fn item_dashes(items: Seq<Item>) -> Seq<Seq<char>> {
    items.map_values(|item: Item| item_dash(item))
}

/// What somebody is asked who wants to be told of the order with this
/// number.
pub open spec fn notify_prompt(data: DataView, id: u32) -> NotifyPromptView {
    match position_of(data.orders, id) {
        None => NotifyPromptView::NotFound(not_found_text(id)),
        Some(i) => {
            let order = data.orders[i];
            if order.status == OrderStatus::Completed || order.status == OrderStatus::Cancelled {
                NotifyPromptView::Closed(
                    "注文 `"@ + decimal(id as nat) + "` はすでに完了/キャンセルされています。"@,
                )
            } else {
                NotifyPromptView::Ask {
                    title: "注文 #"@ + decimal(order.id as nat) + " の通知設定"@,
                    items: joined(item_dashes(order.items), "\n"@),
                    ordered_at: "<t:"@ + signed_decimal(order.ordered_at.secs as int) + ":F>"@,
                }
            }
        },
    }
}

/// Works out what to ask somebody who wants to be told of the order with
/// this number.
pub fn notify(registry: &AppRegistry, id: u32) -> (r: NotifyPrompt)
    ensures
        r@ == notify_prompt(registry@.data, id),
{
    let details = match registry.get_order_details(id) {
        Some(details) => details,
        None => {
            return NotifyPrompt::NotFound(not_found(id));
        },
    };
    if details.status == OrderStatus::Completed || details.status == OrderStatus::Cancelled {
        let mut text = String::from_str("注文 `");
        push_decimal(&mut text, id as u128);
        text.append("` はすでに完了/キャンセルされています。");
        return NotifyPrompt::Closed(text);
    }
    let mut lines: Vec<String> = Vec::new();
    let mut k: usize = 0;
    while k < details.items.len()
        invariant
            k <= details.items.len(),
            line_views(lines@) == item_dashes(details.items@.take(k as int)),
        decreases details.items.len() - k,
    {
        let item = &details.items[k];
        let mut label = String::from_str("- ");
        label.append(item.flavor.name());
        label.append(" x");
        push_decimal(&mut label, item.quantity as u128);
        let ghost before = lines@;
        lines.push(label);
        proof {
            assert(line_views(lines@) =~= line_views(before).push(label@));
            assert(item_dashes(details.items@.take(k + 1)) =~= item_dashes(
                details.items@.take(k as int),
            ).push(item_dash(details.items@[k as int])));
        }
        k += 1;
    }
    proof {
        assert(details.items@.take(k as int) =~= details.items@);
    }
    let mut title = String::from_str("注文 #");
    push_decimal(&mut title, details.id as u128);
    title.append(" の通知設定");
    let mut ordered_at = String::from_str("<t:");
    push_signed_decimal(&mut ordered_at, details.ordered_at.secs);
    ordered_at.append(":F>");
    NotifyPrompt::Ask { title, items: join(&lines, "\n"), ordered_at }
}

/// For each flavor, how the wait for one piece is shown.
pub open spec fn waittime_fields(waits: PerFlavor<Option<nat>>) -> PerFlavor<Seq<char>> {
    PerFlavor {
        tsubuan: walk_in_text(waits.tsubuan),
        custard: walk_in_text(waits.custard),
        kurikinton: walk_in_text(waits.kurikinton),
    }
}

/// The texts of the fields.
pub open spec fn field_views(fields: PerFlavor<String>) -> PerFlavor<Seq<char>> {
    PerFlavor {
        tsubuan: fields.tsubuan@,
        custard: fields.custard@,
        kurikinton: fields.kurikinton@,
    }
}

/// Works out, for each flavor, how the wait for one piece is shown.
pub fn waittime(wait_times: &WaitTimeResponse) -> (r: PerFlavor<String>)
    ensures
        field_views(r) == waittime_fields(
            PerFlavor {
                tsubuan: minutes_view(wait_times.wait_times.tsubuan),
                custard: minutes_view(wait_times.wait_times.custard),
                kurikinton: minutes_view(wait_times.wait_times.kurikinton),
            },
        ),
{
    PerFlavor {
        tsubuan: wait_time_text(wait_times.wait_times.tsubuan),
        custard: wait_time_text(wait_times.wait_times.custard),
        kurikinton: wait_time_text(wait_times.wait_times.kurikinton),
    }
}

} // verus!
