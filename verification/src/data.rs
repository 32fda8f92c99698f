//! The records the stall keeps: flavors and how they are baked, orders and
//! their items, and the stock that no order has claimed yet.

use vstd::prelude::*;

verus! {

/// A filling. The menu is fixed.
#[derive(Clone, Copy, Debug, PartialEq, Eq, Hash, Structural)]
pub enum Flavor {
    Tsubuan,
    Custard,
    Kurikinton,
}

/// What the flavor is called on the menu.
pub open spec fn flavor_name(flavor: Flavor) -> Seq<char> {
    match flavor {
        Flavor::Tsubuan => "つぶあん"@,
        Flavor::Custard => "カスタード"@,
        Flavor::Kurikinton => "栗きんとん"@,
    }
}

impl Flavor {
    /// What the flavor is called on the menu.
    pub fn name(&self) -> (r: &'static str)
        ensures
            r@ == flavor_name(*self),
    {
        match self {
            Flavor::Tsubuan => "つぶあん",
            Flavor::Custard => "カスタード",
            Flavor::Kurikinton => "栗きんとん",
        }
    }

    /// Every flavor, in menu order.
    pub fn all() -> (r: [Flavor; 3])
        ensures
            r@ == seq![Flavor::Tsubuan, Flavor::Custard, Flavor::Kurikinton],
    {
        [Flavor::Tsubuan, Flavor::Custard, Flavor::Kurikinton]
    }
}

/// One value for each flavor.
#[derive(Debug)]
pub struct PerFlavor<T> {
    pub tsubuan: T,
    pub custard: T,
    pub kurikinton: T,
}

impl<T: Copy> Clone for PerFlavor<T> {
    fn clone(&self) -> (r: PerFlavor<T>)
        ensures
            r == *self,
    {
        *self
    }
}

impl<T: Copy> Copy for PerFlavor<T> {

}

impl<T> PerFlavor<T> {
    /// The value kept for `flavor`.
    pub open spec fn at(self, flavor: Flavor) -> T {
        match flavor {
            Flavor::Tsubuan => self.tsubuan,
            Flavor::Custard => self.custard,
            Flavor::Kurikinton => self.kurikinton,
        }
    }

    /// The same values, but `value` for `flavor`.
    pub open spec fn with(self, flavor: Flavor, value: T) -> PerFlavor<T> {
        match flavor {
            Flavor::Tsubuan => PerFlavor { tsubuan: value, ..self },
            Flavor::Custard => PerFlavor { custard: value, ..self },
            Flavor::Kurikinton => PerFlavor { kurikinton: value, ..self },
        }
    }

    /// The value kept for `flavor`.
    pub fn get(&self, flavor: Flavor) -> (r: &T)
        ensures
            *r == self.at(flavor),
    {
        match flavor {
            Flavor::Tsubuan => &self.tsubuan,
            Flavor::Custard => &self.custard,
            Flavor::Kurikinton => &self.kurikinton,
        }
    }

    /// Puts `value` in the place of `flavor`.
    pub fn set(&mut self, flavor: Flavor, value: T)
        ensures
            *final(self) == old(self).with(flavor, value),
    {
        match flavor {
            Flavor::Tsubuan => { self.tsubuan = value; },
            Flavor::Custard => { self.custard = value; },
            Flavor::Kurikinton => { self.kurikinton = value; },
        }
    }
}

/// How one flavor is baked. A batch size of zero means that the flavor is
/// not being baked at the moment.
#[derive(Clone, Copy, Debug)]
pub struct FlavorConfig {
    pub cooking_time_minutes: u32,
    pub quantity_per_batch: u32,
}

/// A number of pieces of one flavor.
#[derive(Clone, Copy, Debug, PartialEq, Eq, Structural)]
pub struct Item {
    pub flavor: Flavor,
    pub quantity: usize,
}

/// Where an order stands. `Cooking` is worked out afresh whenever the
/// orders are reconciled with the stock; `Completed` and `Cancelled` are
/// where an order ends, and reconciling leaves such an order alone.
#[derive(Clone, Copy, Debug, PartialEq, Eq, Structural)]
pub enum OrderStatus {
    Waiting,
    Cooking,
    Ready,
    Completed,
    Cancelled,
}

impl Default for OrderStatus {
    fn default() -> (r: OrderStatus)
        ensures
            r == OrderStatus::Waiting,
    {
        OrderStatus::Waiting
    }
}

/// A point in time: whole seconds since the start of 1970 in UTC, and the
/// nanoseconds into that second.
#[derive(Clone, Copy, Debug, PartialEq, Eq, Structural)]
pub struct Timestamp {
    pub secs: i64,
    pub nanos: u32,
}

impl Timestamp {
    /// `self` is strictly earlier than `other`.
    pub open spec fn before(self, other: Timestamp) -> bool {
        self.secs < other.secs || (self.secs == other.secs && self.nanos < other.nanos)
    }

    /// `self` is no later than `other`.
    pub open spec fn not_after(self, other: Timestamp) -> bool {
        self.before(other) || self == other
    }

    /// Whether `self` is strictly earlier than `other`.
    pub fn is_before(&self, other: &Timestamp) -> (r: bool)
        ensures
            r == self.before(*other),
    {
        self.secs < other.secs || (self.secs == other.secs && self.nanos < other.nanos)
    }

    /// Whether `self` is no later than `other`.
    pub fn is_not_after(&self, other: &Timestamp) -> (r: bool)
        ensures
            r == self.not_after(*other),
    {
        self.secs < other.secs || (self.secs == other.secs && self.nanos <= other.nanos)
    }
}

/// Where to announce that an order is ready.
#[allow(inconsistent_fields)]
#[derive(Debug, Hash)]
pub enum Notify {
    Discord { channel_id: u64, user_id: u64 },
    Line { user_id: String },
}

/// What a [`Notify`] says, with the text as a sequence of characters.
#[allow(inconsistent_fields)]
pub enum NotifyView {
    Discord { channel_id: u64, user_id: u64 },
    Line { user_id: Seq<char> },
}

impl View for Notify {
    type V = NotifyView;

    open spec fn view(&self) -> NotifyView {
        match *self {
            Notify::Discord { channel_id, user_id } => NotifyView::Discord { channel_id, user_id },
            Notify::Line { user_id } => NotifyView::Line { user_id: user_id@ },
        }
    }
}

impl Clone for Notify {
    fn clone(&self) -> (r: Notify)
        ensures
            r@ == self@,
    {
        match self {
            Notify::Discord { channel_id, user_id } => Notify::Discord {
                channel_id: *channel_id,
                user_id: *user_id,
            },
            Notify::Line { user_id } => Notify::Line { user_id: user_id.clone() },
        }
    }
}

impl PartialEq for Notify {
    fn eq(&self, other: &Notify) -> (r: bool) {
        match (self, other) {
            (
                Notify::Discord { channel_id: c1, user_id: u1 },
                Notify::Discord { channel_id: c2, user_id: u2 },
            ) => *c1 == *c2 && *u1 == *u2,
            (Notify::Line { user_id: u1 }, Notify::Line { user_id: u2 }) => *u1 == *u2,
            _ => false,
        }
    }
}

impl vstd::std_specs::cmp::PartialEqSpecImpl for Notify {
    open spec fn obeys_eq_spec() -> bool {
        true
    }

    open spec fn eq_spec(&self, other: &Notify) -> bool {
        self@ == other@
    }
}

impl Eq for Notify {

}

/// The targets of `list`, each by its view.
pub open spec fn notify_views(list: Seq<Notify>) -> Seq<NotifyView> {
    list.map_values(|n: Notify| n@)
}

/// A customer's order.
#[derive(Debug)]
pub struct Order {
    pub id: u32,
    pub items: Vec<Item>,
    pub status: OrderStatus,
    pub ordered_at: Timestamp,
    pub ready_at: Option<Timestamp>,
    pub completed_at: Option<Timestamp>,
    /// Who is told when the order becomes ready. No target occurs twice.
    pub notify: Vec<Notify>,
    pub is_priority: bool,
}

/// An [`Order`] as contracts speak of it.
pub struct OrderView {
    pub id: u32,
    pub items: Seq<Item>,
    pub status: OrderStatus,
    pub ordered_at: Timestamp,
    pub ready_at: Option<Timestamp>,
    pub completed_at: Option<Timestamp>,
    pub notify: Seq<NotifyView>,
    pub is_priority: bool,
}

impl View for Order {
    type V = OrderView;

    open spec fn view(&self) -> OrderView {
        OrderView {
            id: self.id,
            items: self.items@,
            status: self.status,
            ordered_at: self.ordered_at,
            ready_at: self.ready_at,
            completed_at: self.completed_at,
            notify: notify_views(self.notify@),
            is_priority: self.is_priority,
        }
    }
}

/// A copy of `list`.
pub fn clone_targets(list: &Vec<Notify>) -> (r: Vec<Notify>)
    ensures
        notify_views(r@) == notify_views(list@),
{
    let mut r: Vec<Notify> = Vec::new();
    let mut i: usize = 0;
    while i < list.len()
        invariant
            i <= list.len(),
            r.len() == i,
            forall|k: int| 0 <= k < i ==> r[k]@ == list[k]@,
        decreases list.len() - i,
    {
        r.push(list[i].clone());
        i += 1;
    }
    assert(notify_views(r@) =~= notify_views(list@));
    r
}

impl Clone for Order {
    fn clone(&self) -> (r: Order)
        ensures
            r@ == self@,
    {
        let items = self.items.clone();
        assert(items@ =~= self.items@);
        Order {
            id: self.id,
            items,
            status: self.status,
            ordered_at: self.ordered_at,
            ready_at: self.ready_at,
            completed_at: self.completed_at,
            notify: clone_targets(&self.notify),
            is_priority: self.is_priority,
        }
    }
}

/// The views of `orders`.
pub open spec fn order_views(orders: Seq<Order>) -> Seq<OrderView> {
    orders.map_values(|o: Order| o@)
}

/// Everything the stall keeps: the orders in the sequence in which they
/// were taken, the stock that no order has claimed, and how each flavor is
/// baked.
#[derive(Debug)]
pub struct Data {
    pub orders: Vec<Order>,
    pub unallocated_stock: PerFlavor<usize>,
    pub flavor_configs: PerFlavor<FlavorConfig>,
}

/// A [`Data`] as contracts speak of it.
pub struct DataView {
    pub orders: Seq<OrderView>,
    pub stock: PerFlavor<usize>,
    pub configs: PerFlavor<FlavorConfig>,
}

impl View for Data {
    type V = DataView;

    open spec fn view(&self) -> DataView {
        DataView {
            orders: order_views(self.orders@),
            stock: self.unallocated_stock,
            configs: self.flavor_configs,
        }
    }
}

/// How the flavors are baked when nothing else has been set: fifteen
/// minutes a batch, nine pieces of tsubuan or custard, two of kurikinton.
pub open spec fn default_configs() -> PerFlavor<FlavorConfig> {
    PerFlavor {
        tsubuan: FlavorConfig { cooking_time_minutes: 15, quantity_per_batch: 9 },
        custard: FlavorConfig { cooking_time_minutes: 15, quantity_per_batch: 9 },
        kurikinton: FlavorConfig { cooking_time_minutes: 15, quantity_per_batch: 2 },
    }
}

/// The records of a stall that opens: no orders, no stock, and the usual
/// way of baking each flavor.
pub open spec fn opening_records() -> DataView {
    DataView {
        orders: Seq::empty(),
        stock: PerFlavor { tsubuan: 0, custard: 0, kurikinton: 0 },
        configs: default_configs(),
    }
}

impl Default for Data {
    /// No orders, no stock, and the usual way of baking each flavor.
    fn default() -> (r: Data)
        ensures
            r@ == opening_records(),
    {
        let r = Data {
            orders: Vec::new(),
            unallocated_stock: PerFlavor { tsubuan: 0, custard: 0, kurikinton: 0 },
            flavor_configs: PerFlavor {
                tsubuan: FlavorConfig { cooking_time_minutes: 15, quantity_per_batch: 9 },
                custard: FlavorConfig { cooking_time_minutes: 15, quantity_per_batch: 9 },
                kurikinton: FlavorConfig { cooking_time_minutes: 15, quantity_per_batch: 2 },
            },
        };
        assert(r@.orders =~= Seq::<OrderView>::empty());
        r
    }
}

} // verus!
