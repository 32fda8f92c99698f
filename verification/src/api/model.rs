//! The shapes of requests and answers.

use vstd::prelude::*;
use crate::data::{Item, OrderStatus, PerFlavor, Timestamp};
use crate::text::{chars_of, find_char, lemma_first_index, spells, split_on, trim, trimmed};

verus! {

/// An order as a customer is told of it.
#[derive(Debug)]
pub struct OrderDetailsResponse {
    pub id: u32,
    pub items: Vec<Item>,
    pub status: OrderStatus,
    pub ordered_at: Timestamp,
    /// The minutes the order is expected to wait, if it is waiting.
    pub estimated_wait_minutes: Option<u128>,
}

/// An [`OrderDetailsResponse`] as contracts speak of it.
pub struct OrderDetailsView {
    pub id: u32,
    pub items: Seq<Item>,
    pub status: OrderStatus,
    pub ordered_at: Timestamp,
    pub estimated_wait_minutes: Option<nat>,
}

/// The number as a natural number.
pub open spec fn minutes_view(minutes: Option<u128>) -> Option<nat> {
    match minutes {
        Some(m) => Some(m as nat),
        None => None,
    }
}

impl View for OrderDetailsResponse {
    type V = OrderDetailsView;

    open spec fn view(&self) -> OrderDetailsView {
        OrderDetailsView {
            id: self.id,
            items: self.items@,
            status: self.status,
            ordered_at: self.ordered_at,
            estimated_wait_minutes: minutes_view(self.estimated_wait_minutes),
        }
    }
}

/// For each flavor, the minutes somebody waits who asks for one piece
/// now, or `None` where the flavor is not being baked.
#[derive(Debug)]
pub struct WaitTimeResponse {
    pub wait_times: PerFlavor<Option<u128>>,
}

/// An order to take.
#[derive(Debug)]
pub struct CreateOrderRequest {
    pub items: Vec<Item>,
    /// Whether the order has priority. Where nothing is said, it has none.
    pub is_priority: Option<bool>,
}

/// What was baked.
#[derive(Debug)]
pub struct UpdateProductionRequest {
    pub items: Vec<Item>,
}

/// The priority to give an order.
#[derive(Debug)]
pub struct UpdateOrderPriorityRequest {
    pub is_priority: bool,
}

/// Which orders the staff want to see: those in one of these states, or
/// all of them where no state is named.
#[derive(Debug)]
pub struct StaffOrdersQuery {
    pub status: Vec<OrderStatus>,
}

/// An order on the public display.
#[derive(Debug)]
pub struct DisplayOrder {
    pub id: u32,
}

/// What the public display shows: the orders that are ready, cooking and
/// waiting.
#[derive(Debug)]
pub struct DisplayOrdersResponse {
    pub ready: Vec<DisplayOrder>,
    pub cooking: Vec<DisplayOrder>,
    pub waiting: Vec<DisplayOrder>,
}

/// What recording a batch led to: the orders that became ready, and the
/// stock that is left.
#[derive(Debug)]
pub struct UpdateProductionResponse {
    pub newly_ready_orders: Vec<u32>,
    pub unallocated_items: Vec<Item>,
}

/// The state that the word names.
pub open spec fn status_named(word: Seq<char>) -> Option<OrderStatus> {
    if word == "waiting"@ {
        Some(OrderStatus::Waiting)
    } else if word == "cooking"@ {
        Some(OrderStatus::Cooking)
    } else if word == "ready"@ {
        Some(OrderStatus::Ready)
    } else if word == "completed"@ {
        Some(OrderStatus::Completed)
    } else if word == "cancelled"@ {
        Some(OrderStatus::Cancelled)
    } else {
        None
    }
}

/// What is said of a word that names no state.
pub open spec fn invalid_status(word: Seq<char>) -> Seq<char> {
    "invalid order status: '"@ + word + "'"@
}

/// `found`, followed by what the rest of the list gave.
pub open spec fn followed_by(
    found: Seq<OrderStatus>,
    rest: Result<Seq<OrderStatus>, Seq<char>>,
) -> Result<Seq<OrderStatus>, Seq<char>> {
    match rest {
        Ok(more) => Ok(found + more),
        Err(e) => Err(e),
    }
}

/// The states that the pieces name, in their sequence. White space around
/// a piece does not count, and a piece of nothing else is passed over. The
/// first piece that names no state is an error.
pub open spec fn statuses_in(pieces: Seq<Seq<char>>) -> Result<Seq<OrderStatus>, Seq<char>>
    decreases pieces.len(),
{
    if pieces.len() == 0 {
        Ok(Seq::empty())
    } else {
        let word = trimmed(pieces[0]);
        if word.len() == 0 {
            statuses_in(pieces.skip(1))
        } else {
            match status_named(word) {
                Some(status) => followed_by(seq![status], statuses_in(pieces.skip(1))),
                None => Err(invalid_status(word)),
            }
        }
    }
}

/// The states named in a list with commas between them.
pub open spec fn status_list(s: Seq<char>) -> Result<Seq<OrderStatus>, Seq<char>> {
    statuses_in(split_on(s, ','))
}

/// The state that the characters from `from` up to `to` name.
pub fn read_status(chars: &Vec<char>, from: usize, to: usize) -> (r: Option<OrderStatus>)
    requires
        from <= to <= chars.len(),
    ensures
        r == status_named(chars@.subrange(from as int, to as int)),
{
    if spells(chars, from, to, "waiting") {
        Some(OrderStatus::Waiting)
    } else if spells(chars, from, to, "cooking") {
        Some(OrderStatus::Cooking)
    } else if spells(chars, from, to, "ready") {
        Some(OrderStatus::Ready)
    } else if spells(chars, from, to, "completed") {
        Some(OrderStatus::Completed)
    } else if spells(chars, from, to, "cancelled") {
        Some(OrderStatus::Cancelled)
    } else {
        None
    }
}

/// Reads a list of states with commas between them, as in
/// `waiting, ready`. An empty text names no state.
pub fn csv_to_order_status(s: &str) -> (r: Result<Vec<OrderStatus>, String>)
    ensures
        match r {
            Ok(list) => status_list(s@) == Ok::<Seq<OrderStatus>, Seq<char>>(list@),
            Err(e) => status_list(s@) == Err::<Seq<OrderStatus>, Seq<char>>(e@),
        },
{
    let chars = chars_of(s);
    let len: usize = chars.len();
    let mut found: Vec<OrderStatus> = Vec::new();
    let mut start: usize = 0;
    let mut done = false;
    proof {
        assert(chars@.subrange(0, len as int) =~= s@);
        assert(Seq::<OrderStatus>::empty() + Seq::<OrderStatus>::empty() =~= Seq::empty());
        match statuses_in(split_on(s@, ',')) {
            Ok(more) => {
                assert(found@ + more =~= more);
            },
            Err(_) => {},
        }
    }
    while !done
        invariant
            chars@ == s@,
            len == chars.len(),
            start <= len,
            !done ==> status_list(s@) == followed_by(
                found@,
                statuses_in(split_on(chars@.subrange(start as int, len as int), ',')),
            ),
            done ==> status_list(s@) == Ok::<Seq<OrderStatus>, Seq<char>>(found@),
        decreases len - start + if done { 0int } else { 1int },
    {
        let end: usize = find_char(&chars, start, len, ',');
        let (a, b) = trim(&chars, start, end);
        let ghost rest = chars@.subrange(start as int, len as int);
        let ghost piece = chars@.subrange(start as int, end as int);
        let ghost tail = if end < len {
            split_on(chars@.subrange(end + 1, len as int), ',')
        } else {
            Seq::empty()
        };
        proof {
            lemma_first_index(rest, ',');
            if end < len {
                assert(rest.take(end - start) =~= piece);
                assert(rest.skip(end - start + 1) =~= chars@.subrange(end + 1, len as int));
            } else {
                assert(rest =~= piece);
            }
            assert(split_on(rest, ',') =~= seq![piece] + tail);
            assert((seq![piece] + tail)[0] == piece);
            assert((seq![piece] + tail).skip(1) =~= tail);
            if end == len {
                assert(statuses_in(tail) == Ok::<Seq<OrderStatus>, Seq<char>>(Seq::empty()));
            }
        }
        let ghost before = found@;
        if a < b {
            match read_status(&chars, a, b) {
                Some(status) => {
                    found.push(status);
                    proof {
                        match statuses_in(tail) {
                            Ok(more) => {
                                assert(before + (seq![status] + more) =~= found@ + more);
                            },
                            Err(_) => {},
                        }
                    }
                },
                None => {
                    let mut e = String::from_str("invalid order status: '");
                    e.append(s.substring_char(a, b));
                    e.append("'");
                    return Err(e);
                },
            }
        }
        if end == len {
            proof {
                assert(found@ + Seq::<OrderStatus>::empty() =~= found@);
            }
            done = true;
        } else {
            start = end + 1;
        }
    }
    Ok(found)
}

} // verus!
