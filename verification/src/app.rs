//! The registry: the stall's records, and every way of changing or asking
//! them.

use vstd::prelude::*;
use crate::api::model::{OrderDetailsResponse, OrderDetailsView, WaitTimeResponse, minutes_view};
use crate::changes::{
    RegistryView, can_take_order, can_take_stock, records_fit, config_set, find_order,
    find_target, highest_id, lemma_change_keeps_claims, lemma_claim_within,
    lemma_restocked_well_formed, lemma_with_order_well_formed, made_cancelled, made_completed,
    new_order, order_cancelled, order_completed, order_taken, position_of, priority_set,
    production_recorded, reconciled, restocked, stock_items, target_added, target_removed,
    unallocated_items, with_order, with_target, within_room, without_target,
};
use crate::clock::current_time;
use crate::data::{
    Data, DataView, Flavor, FlavorConfig, Item, Notify, NotifyView, Order, OrderStatus, OrderView,
    PerFlavor, Timestamp, notify_views, opening_records,
};
use crate::engine::{add_demand, reconcile_records};
use crate::estimate::{
    batch_minutes, demand_ahead, demand_ahead_of, demand_in_line, demand_in_line_of, estimated_wait,
    flavor_wait, lemma_demand_in_line_outstanding, longest_wait, walk_in_wait,
};
use crate::reconcile::{lemma_opening_records_well_formed, 
    NoticeView, can_fulfill, claim, committed, demand, fulfill, lemma_reconcile_frame, outstanding,
    reconcile, well_formed,
};

verus! {

/// A message to send: the order with this number is ready.
#[derive(Debug)]
pub struct Notice {
    pub order_id: u32,
    pub target: Notify,
    pub message: String,
}

impl View for Notice {
    type V = NoticeView;

    open spec fn view(&self) -> NoticeView {
        NoticeView { order_id: self.order_id, target: self.target@, message: self.message@ }
    }
}

/// The views of `list`.
pub open spec fn notice_views(list: Seq<Notice>) -> Seq<NoticeView> {
    list.map_values(|n: Notice| n@)
}

/// The stall's records and the notices not yet handed out.
///
/// The records are well-formed at all times, in the sense of
/// [`well_formed`]: every constructor sees to it and every method keeps it.
pub struct AppRegistry {
    data: Data,
    outbox: Vec<Notice>,
}

/// What a customer is told of the order.
pub open spec fn details_of(data: DataView, order: OrderView) -> OrderDetailsView {
    OrderDetailsView {
        id: order.id,
        items: order.items,
        status: order.status,
        ordered_at: order.ordered_at,
        estimated_wait_minutes: estimated_wait(data, order),
    }
}

impl AppRegistry {
    /// The records are well-formed.
    #[verifier::type_invariant]
    spec fn records_well_formed(self) -> bool {
        well_formed(self.data@)
    }

    /// The records and the outbox.
    pub closed spec fn view(&self) -> RegistryView {
        RegistryView { data: self.data@, outbox: notice_views(self.outbox@) }
    }

    /// A registry without orders or stock, with the usual way of baking
    /// each flavor.
    pub fn new() -> (r: AppRegistry)
        ensures
            r@.data == opening_records(),
            r@.outbox == Seq::<NoticeView>::empty(),
            well_formed(r@.data),
    {
        let data = Data::default();
        proof {
            lemma_opening_records_well_formed();
        }
        let r = AppRegistry { data, outbox: Vec::new() };
        proof {
            assert(notice_views(r.outbox@) =~= Seq::<NoticeView>::empty());
        }
        r
    }

    /// A registry that takes up these records, if they are well-formed.
    pub fn from_data(data: Data) -> (r: Option<AppRegistry>)
        ensures
            r.is_some() == well_formed(data@),
            r.is_some() ==> r.unwrap()@ == (RegistryView {
                data: data@,
                outbox: Seq::<NoticeView>::empty(),
            }),
    {
        if records_fit(&data) {
            let r = AppRegistry { data, outbox: Vec::new() };
            proof {
                assert(notice_views(r.outbox@) =~= Seq::<NoticeView>::empty());
            }
            Some(r)
        } else {
            None
        }
    }

    /// The records as they stand.
    pub fn data(&self) -> (r: &Data)
        ensures
            r@ == self@.data,
            well_formed(r@),
    {
        proof {
            use_type_invariant(self);
        }
        &self.data
    }

    /// Hands out the notices gathered so far and empties the outbox.
    pub fn take_notices(&mut self) -> (r: Vec<Notice>)
        ensures
            notice_views(r@) == old(self)@.outbox,
            final(self)@.outbox == Seq::<NoticeView>::empty(),
            final(self)@.data == old(self)@.data,
    {
        proof {
            use_type_invariant(&*self);
        }
        let mut r: Vec<Notice> = Vec::new();
        core::mem::swap(&mut self.outbox, &mut r);
        proof {
            assert(notice_views(self.outbox@) =~= Seq::<NoticeView>::empty());
        }
        r
    }

    /// Reconciles the orders with the stock, as [`reconcile`] says, and
    /// returns the numbers of the orders that became ready, in the sequence
    /// in which they were called up. A notice for each target of each such
    /// order goes to the outbox.
    pub fn update_order_statuses(&mut self, now: Timestamp) -> (promoted: Vec<u32>)
        ensures
            final(self)@ == reconciled(old(self)@, now),
            promoted@ == reconcile(old(self)@.data, now).promoted,
            well_formed(final(self)@.data),
    {
        let (mut data, mut outbox) = self.take_records();
        let promoted = reconcile_records(&mut data, &mut outbox, now);
        self.put_records(data, outbox);
        promoted
    }

    /// Takes the records and the outbox out of the registry, which is left
    /// as a stall that opens.
    fn take_records(&mut self) -> (r: (Data, Vec<Notice>))
        ensures
            r.0@ == old(self)@.data,
            notice_views(r.1@) == old(self)@.outbox,
            well_formed(r.0@),
    {
        proof {
            use_type_invariant(&*self);
        }
        let mut data = Data::default();
        let mut outbox: Vec<Notice> = Vec::new();
        proof {
            lemma_opening_records_well_formed();
        }
        core::mem::swap(&mut self.data, &mut data);
        core::mem::swap(&mut self.outbox, &mut outbox);
        (data, outbox)
    }

    /// Puts records and an outbox into the registry.
    fn put_records(&mut self, data: Data, outbox: Vec<Notice>)
        requires
            well_formed(data@),
        ensures
            final(self)@ == (RegistryView { data: data@, outbox: notice_views(outbox@) }),
    {
        proof {
            use_type_invariant(&*self);
        }
        self.data = data;
        self.outbox = outbox;
    }

    /// Whether an order for these items can be taken: see
    /// [`can_take_order`].
    pub fn can_create_order(&self, items: &Vec<Item>) -> (r: bool)
        ensures
            r == can_take_order(self@.data, items@),
    {
        self.data.orders.len() < usize::MAX && highest_id(&self.data.orders) < u32::MAX
            && within_room(&self.data, items)
    }

    /// Takes an order for the items at `now` and reconciles the records.
    /// Returns the order as it stands after that: it may be cooking or
    /// ready already.
    pub fn create_order_at(&mut self, items: Vec<Item>, is_priority: bool, now: Timestamp) -> (order:
        Order)
        requires
            can_take_order(old(self)@.data, items@),
        ensures
            final(self)@ == order_taken(old(self)@, items@, is_priority, now),
            order@ == final(self)@.data.orders.last(),
            final(self)@.data.orders.len() == old(self)@.data.orders.len() + 1,
            well_formed(final(self)@.data),
    {
        let (mut data, mut outbox) = self.take_records();
        let ghost before = data@;
        let id: u32 = highest_id(&data.orders) + 1;
        let order = Order {
            id,
            items,
            status: OrderStatus::Waiting,
            ordered_at: now,
            ready_at: None,
            completed_at: None,
            notify: Vec::new(),
            is_priority,
        };
        proof {
            assert(order@.notify =~= Seq::<NotifyView>::empty());
            assert(order@ == new_order(id, items@, is_priority, now));
        }
        data.orders.push(order);
        proof {
            assert(data@.orders =~= before.orders.push(new_order(id, items@, is_priority, now)));
            assert(data@ == with_order(before, items@, is_priority, now));
            lemma_with_order_well_formed(before, items@, is_priority, now);
            lemma_reconcile_frame(data@, now);
        }
        reconcile_records(&mut data, &mut outbox, now);
        let order = data.orders[data.orders.len() - 1].clone();
        self.put_records(data, outbox);
        order
    }

    /// Takes an order for the items at the time on the system clock.
    pub fn create_order(&mut self, items: Vec<Item>, is_priority: bool) -> (order: Order)
        requires
            can_take_order(old(self)@.data, items@),
        ensures
            exists|now: Timestamp|
                {
                    &&& final(self)@ == #[trigger] order_taken(
                        old(self)@,
                        items@,
                        is_priority,
                        now,
                    )
                    &&& order@ == final(self)@.data.orders.last()
                },
            final(self)@.data.orders.len() == old(self)@.data.orders.len() + 1,
            well_formed(final(self)@.data),
    {
        let now = current_time();
        self.create_order_at(items, is_priority, now)
    }

    /// Whether these pieces can be added to the stock: see
    /// [`can_take_stock`].
    pub fn can_update_production(&self, production: &Vec<Item>) -> (r: bool)
        ensures
            r == can_take_stock(self@.data, production@),
    {
        within_room(&self.data, production)
    }

    /// Records at `now` that the items were baked and reconciles the
    /// records. Returns the numbers of the orders that became ready, and
    /// the stock that is left.
    pub fn update_production_at(&mut self, production: Vec<Item>, now: Timestamp) -> (r: (
        Vec<u32>,
        Vec<Item>,
    ))
        requires
            can_take_stock(old(self)@.data, production@),
        ensures
            final(self)@ == production_recorded(old(self)@, production@, now),
            r.0@ == reconcile(
                DataView {
                    stock: restocked(old(self)@.data.stock, production@),
                    ..old(self)@.data
                },
                now,
            ).promoted,
            r.1@ == stock_items(final(self)@.data.stock),
            well_formed(final(self)@.data),
    {
        let (mut data, mut outbox) = self.take_records();
        let ghost before = data@;
        proof {
            lemma_restocked_well_formed(before, production@);
            assert forall|flavor: Flavor|
                #![trigger data.unallocated_stock.at(flavor)]
                data.unallocated_stock.at(flavor) + demand(production@, flavor)
                    <= usize::MAX by {
                assert(committed(before, flavor) + demand(production@, flavor) < usize::MAX);
            }
        }
        add_demand(&production, &mut data.unallocated_stock);
        proof {
            assert(data.unallocated_stock.at(Flavor::Tsubuan) == restocked(
                before.stock,
                production@,
            ).at(Flavor::Tsubuan));
            assert(data.unallocated_stock.at(Flavor::Custard) == restocked(
                before.stock,
                production@,
            ).at(Flavor::Custard));
            assert(data.unallocated_stock.at(Flavor::Kurikinton) == restocked(
                before.stock,
                production@,
            ).at(Flavor::Kurikinton));
            assert(data@ == DataView { stock: restocked(before.stock, production@), ..before });
        }
        let promoted = reconcile_records(&mut data, &mut outbox, now);
        let left = unallocated_items(&data.unallocated_stock);
        self.put_records(data, outbox);
        (promoted, left)
    }

    /// Records at the time on the system clock that the items were baked.
    pub fn update_production(&mut self, production: Vec<Item>) -> (r: (Vec<u32>, Vec<Item>))
        requires
            can_take_stock(old(self)@.data, production@),
        ensures
            exists|now: Timestamp|
                {
                    &&& final(self)@ == #[trigger] production_recorded(
                        old(self)@,
                        production@,
                        now,
                    )
                    &&& r.0@ == reconcile(
                        DataView {
                            stock: restocked(old(self)@.data.stock, production@),
                            ..old(self)@.data
                        },
                        now,
                    ).promoted
                },
            r.1@ == stock_items(final(self)@.data.stock),
            well_formed(final(self)@.data),
    {
        let now = current_time();
        self.update_production_at(production, now)
    }

    /// Hands the order with this number over at `now`, whatever it was
    /// before, and returns it; `None` if there is no such order. The stock
    /// and the other orders stay as they are.
    pub fn complete_order_at(&mut self, id: u32, now: Timestamp) -> (r: Option<Order>)
        ensures
            final(self)@ == order_completed(old(self)@, id, now),
            match position_of(old(self)@.data.orders, id) {
                Some(i) => r.is_some() && r.unwrap()@ == made_completed(
                    old(self)@.data.orders[i],
                    now,
                ),
                None => r.is_none(),
            },
            well_formed(final(self)@.data),
    {
        let (mut data, outbox) = self.take_records();
        let ghost before = data@;
        let r = match find_order(&data.orders, id) {
            Some(i) => {
                data.orders[i].status = OrderStatus::Completed;
                data.orders[i].completed_at = Some(now);
                proof {
                    let after = made_completed(before.orders[i as int], now);
                    assert(data@.orders =~= before.orders.update(i as int, after));
                    lemma_change_keeps_claims(before, i as int, after);
                }
                Some(data.orders[i].clone())
            },
            None => None,
        };
        self.put_records(data, outbox);
        r
    }

    /// Hands the order with this number over at the time on the system
    /// clock.
    pub fn complete_order(&mut self, id: u32) -> (r: Option<Order>)
        ensures
            exists|now: Timestamp|
                {
                    &&& final(self)@ == #[trigger] order_completed(old(self)@, id, now)
                    &&& match position_of(old(self)@.data.orders, id) {
                        Some(i) => r.is_some() && r.unwrap()@ == made_completed(
                            old(self)@.data.orders[i],
                            now,
                        ),
                        None => r.is_none(),
                    }
                },
            well_formed(final(self)@.data),
    {
        let now = current_time();
        self.complete_order_at(id, now)
    }

    /// Calls the order with this number off and returns it; `None` if
    /// there is no such order. If the order was ready, its pieces go back
    /// to the stock and the records are reconciled at `now`. If it was
    /// not, the stock and the other orders stay as they are.
    pub fn cancel_order_at(&mut self, id: u32, now: Timestamp) -> (r: Option<Order>)
        ensures
            final(self)@ == order_cancelled(old(self)@, id, now),
            match position_of(old(self)@.data.orders, id) {
                Some(i) => r.is_some() && r.unwrap()@ == made_cancelled(old(self)@.data.orders[i]),
                None => r.is_none(),
            },
            well_formed(final(self)@.data),
    {
        let (mut data, mut outbox) = self.take_records();
        let ghost before = data@;
        let r = match find_order(&data.orders, id) {
            Some(i) => {
                let was_ready = data.orders[i].status == OrderStatus::Ready;
                data.orders[i].status = OrderStatus::Cancelled;
                let cancelled = data.orders[i].clone();
                proof {
                    let after = made_cancelled(before.orders[i as int]);
                    assert(data@.orders =~= before.orders.update(i as int, after));
                    lemma_change_keeps_claims(before, i as int, after);
                }
                if was_ready {
                    let ghost mid = data@;
                    proof {
                        assert forall|flavor: Flavor|
                            #![trigger data.unallocated_stock.at(flavor)]
                            data.unallocated_stock.at(flavor) + demand(
                                data.orders[i as int].items@,
                                flavor,
                            ) <= usize::MAX by {
                            assert(committed(before, flavor) < usize::MAX);
                            lemma_claim_within(before.orders, i as int, flavor);
                        }
                    }
                    add_demand(&data.orders[i].items, &mut data.unallocated_stock);
                    proof {
                        let items = before.orders[i as int].items;
                        let stock = restocked(before.stock, items);
                        assert(data.unallocated_stock.at(Flavor::Tsubuan) == stock.at(
                            Flavor::Tsubuan,
                        ));
                        assert(data.unallocated_stock.at(Flavor::Custard) == stock.at(
                            Flavor::Custard,
                        ));
                        assert(data.unallocated_stock.at(Flavor::Kurikinton) == stock.at(
                            Flavor::Kurikinton,
                        ));
                        assert(data@ == DataView { stock, ..mid });
                        assert forall|flavor: Flavor| #[trigger]
                            committed(data@, flavor) < usize::MAX by {
                            assert(committed(mid, flavor) + claim(before.orders[i as int], flavor)
                                == committed(before, flavor) + claim(
                                made_cancelled(before.orders[i as int]),
                                flavor,
                            ));
                            assert(data.unallocated_stock.at(flavor) == before.stock.at(flavor)
                                + demand(items, flavor));
                            assert(committed(before, flavor) < usize::MAX);
                        }
                    }
                    reconcile_records(&mut data, &mut outbox, now);
                }
                Some(cancelled)
            },
            None => None,
        };
        self.put_records(data, outbox);
        r
    }

    /// Calls the order with this number off at the time on the system
    /// clock.
    pub fn cancel_order(&mut self, id: u32) -> (r: Option<Order>)
        ensures
            exists|now: Timestamp|
                final(self)@ == #[trigger] order_cancelled(old(self)@, id, now),
            match position_of(old(self)@.data.orders, id) {
                Some(i) => r.is_some() && r.unwrap()@ == made_cancelled(old(self)@.data.orders[i]),
                None => r.is_none(),
            },
            well_formed(final(self)@.data),
    {
        let now = current_time();
        self.cancel_order_at(id, now)
    }

    /// Sets the priority of the order with this number and returns the
    /// order as it stands afterwards; `None` if there is no such order. If
    /// the order has that priority already, nothing happens; if not, the
    /// records are reconciled at `now`.
    pub fn update_order_priority_at(&mut self, id: u32, is_priority: bool, now: Timestamp) -> (r:
        Option<Order>)
        ensures
            final(self)@ == priority_set(old(self)@, id, is_priority, now),
            final(self)@.data.orders.len() == old(self)@.data.orders.len(),
            match position_of(old(self)@.data.orders, id) {
                Some(i) => r.is_some() && r.unwrap()@ == final(self)@.data.orders[i],
                None => r.is_none(),
            },
            well_formed(final(self)@.data),
    {
        let (mut data, mut outbox) = self.take_records();
        let ghost before = data@;
        let r = match find_order(&data.orders, id) {
            Some(i) => {
                if data.orders[i].is_priority != is_priority {
                    data.orders[i].is_priority = is_priority;
                    proof {
                        let after = OrderView { is_priority, ..before.orders[i as int] };
                        assert(data@.orders =~= before.orders.update(i as int, after));
                        lemma_change_keeps_claims(before, i as int, after);
                        lemma_reconcile_frame(data@, now);
                    }
                    reconcile_records(&mut data, &mut outbox, now);
                }
                Some(data.orders[i].clone())
            },
            None => None,
        };
        self.put_records(data, outbox);
        r
    }

    /// Sets the priority of the order with this number, reconciling at the
    /// time on the system clock where that is called for.
    pub fn update_order_priority(&mut self, id: u32, is_priority: bool) -> (r: Option<Order>)
        ensures
            exists|now: Timestamp|
                final(self)@ == #[trigger] priority_set(old(self)@, id, is_priority, now),
            final(self)@.data.orders.len() == old(self)@.data.orders.len(),
            match position_of(old(self)@.data.orders, id) {
                Some(i) => r.is_some() && r.unwrap()@ == final(self)@.data.orders[i],
                None => r.is_none(),
            },
            well_formed(final(self)@.data),
    {
        let now = current_time();
        self.update_order_priority_at(id, is_priority, now)
    }

    /// Adds a target to tell when the order with this number is ready,
    /// unless it is among the targets already, and returns the order;
    /// `None` if there is no such order.
    pub fn add_notification(&mut self, id: u32, payload: Notify) -> (r: Option<Order>)
        ensures
            final(self)@ == target_added(old(self)@, id, payload@),
            final(self)@.data.orders.len() == old(self)@.data.orders.len(),
            match position_of(old(self)@.data.orders, id) {
                Some(i) => r.is_some() && r.unwrap()@ == final(self)@.data.orders[i],
                None => r.is_none(),
            },
            well_formed(final(self)@.data),
    {
        let (mut data, outbox) = self.take_records();
        let ghost before = data@;
        let r = match find_order(&data.orders, id) {
            Some(i) => {
                let ghost targets = before.orders[i as int].notify;
                if find_target(&data.orders[i].notify, &payload).is_none() {
                    data.orders[i].notify.push(payload);
                    proof {
                        assert(notify_views(data.orders[i as int].notify@) =~= targets.push(
                            payload@,
                        ));
                    }
                }
                proof {
                    let after = OrderView {
                        notify: with_target(targets, payload@),
                        ..before.orders[i as int]
                    };
                    assert(data@.orders =~= before.orders.update(i as int, after));
                    lemma_change_keeps_claims(before, i as int, after);
                }
                Some(data.orders[i].clone())
            },
            None => None,
        };
        self.put_records(data, outbox);
        r
    }

    /// Takes a target from those to tell when the order with this number
    /// is ready and returns the order; `None` if there is no such order.
    pub fn cancel_notification(&mut self, id: u32, payload: &Notify) -> (r: Option<Order>)
        ensures
            final(self)@ == target_removed(old(self)@, id, payload@),
            final(self)@.data.orders.len() == old(self)@.data.orders.len(),
            match position_of(old(self)@.data.orders, id) {
                Some(i) => r.is_some() && r.unwrap()@ == final(self)@.data.orders[i],
                None => r.is_none(),
            },
            well_formed(final(self)@.data),
    {
        let (mut data, outbox) = self.take_records();
        let ghost before = data@;
        let r = match find_order(&data.orders, id) {
            Some(i) => {
                let ghost targets = before.orders[i as int].notify;
                match find_target(&data.orders[i].notify, payload) {
                    Some(j) => {
                        data.orders[i].notify.remove(j);
                        proof {
                            assert(targets.no_duplicates());
                            assert(targets.index_of(payload@) == j);
                            assert(notify_views(data.orders[i as int].notify@) =~= targets.remove(
                                j as int,
                            ));
                            targets.remove_ensures(j as int);
                        }
                    },
                    None => {},
                }
                proof {
                    let after = OrderView {
                        notify: without_target(targets, payload@),
                        ..before.orders[i as int]
                    };
                    assert(data@.orders =~= before.orders.update(i as int, after));
                    assert(after.notify.no_duplicates()) by {
                        if targets.contains(payload@) {
                            let j = targets.index_of(payload@);
                            let less = targets.remove(j);
                            assert forall|a: int, b: int|
                                0 <= a < less.len() && 0 <= b < less.len() && a != b implies less[a]
                                != less[b] by {
                                let a0 = if a < j { a } else { a + 1 };
                                let b0 = if b < j { b } else { b + 1 };
                                assert(less[a] == targets[a0]);
                                assert(less[b] == targets[b0]);
                            }
                        }
                    }
                    lemma_change_keeps_claims(before, i as int, after);
                }
                Some(data.orders[i].clone())
            },
            None => None,
        };
        self.put_records(data, outbox);
        r
    }

    /// Sets how `flavor` is baked. The orders stay as they are until the
    /// records are next reconciled.
    pub fn set_flavor_config(&mut self, flavor: Flavor, config: FlavorConfig)
        ensures
            final(self)@ == config_set(old(self)@, flavor, config),
            well_formed(final(self)@.data),
    {
        let (mut data, outbox) = self.take_records();
        data.flavor_configs.set(flavor, config);
        proof {
            assert forall|f: Flavor| #[trigger] committed(data@, f) == committed(old(self)@.data, f) by {}
            assert(well_formed(data@));
        }
        self.put_records(data, outbox);
    }

    /// The order with this number as a customer is told of it, with the
    /// minutes it is expected to wait if it is waiting; `None` if there is
    /// no such order.
    pub fn get_order_details(&self, id: u32) -> (r: Option<OrderDetailsResponse>)
        ensures
            match position_of(self@.data.orders, id) {
                Some(i) => r.is_some() && r.unwrap()@ == details_of(
                    self@.data,
                    self@.data.orders[i],
                ),
                None => r.is_none(),
            },
    {
        proof {
            use_type_invariant(self);
        }
        let i = match find_order(&self.data.orders, id) {
            Some(i) => i,
            None => {
                return None;
            },
        };
        let order = &self.data.orders[i];
        let estimated_wait_minutes = if order.status == OrderStatus::Waiting {
            proof {
                assert forall|flavor: Flavor| #[trigger]
                    outstanding(self.data@.orders, flavor) <= usize::MAX by {
                    assert(committed(self.data@, flavor) < usize::MAX);
                }
            }
            let ahead = demand_ahead_of(&self.data.orders, &order.ordered_at);
            let mut longest: u128 = 0;
            let mut k: usize = 0;
            while k < order.items.len()
                invariant
                    k <= order.items.len(),
                    longest == longest_wait(self.data@, order@, k as nat),
                    forall|flavor: Flavor|
                        #![trigger ahead.at(flavor)]
                        ahead.at(flavor) == demand_ahead(
                            self.data@.orders,
                            order.ordered_at,
                            flavor,
                        ),
                decreases order.items.len() - k,
            {
                let flavor = order.items[k].flavor;
                let there: usize = *self.data.unallocated_stock.get(flavor);
                let wanted: usize = *ahead.get(flavor);
                let config = self.data.flavor_configs.get(flavor);
                let this: u128 = if wanted > there && config.quantity_per_batch > 0 {
                    batch_minutes(
                        wanted - there,
                        config.quantity_per_batch,
                        config.cooking_time_minutes,
                    )
                } else {
                    0
                };
                assert(this == flavor_wait(self.data@, order.ordered_at, flavor));
                if this > longest {
                    longest = this;
                }
                k += 1;
            }
            Some(longest)
        } else {
            None
        };
        let items = order.items.clone();
        proof {
            assert(items@ =~= order.items@);
        }
        Some(
            OrderDetailsResponse {
                id: order.id,
                items,
                status: order.status,
                ordered_at: order.ordered_at,
                estimated_wait_minutes,
            },
        )
    }

    /// For each flavor, the minutes somebody waits who walks up now and
    /// asks for one piece.
    pub fn get_current_wait_times(&self) -> (r: WaitTimeResponse)
        ensures
            forall|flavor: Flavor|
                #![trigger r.wait_times.at(flavor)]
                minutes_view(r.wait_times.at(flavor)) == walk_in_wait(self@.data, flavor),
    {
        proof {
            use_type_invariant(self);
            assert forall|flavor: Flavor| #[trigger]
                outstanding(self.data@.orders, flavor) <= usize::MAX by {
                assert(committed(self.data@, flavor) < usize::MAX);
            }
        }
        let in_line = demand_in_line_of(&self.data.orders);
        let mut wait_times: PerFlavor<Option<u128>> = PerFlavor {
            tsubuan: None,
            custard: None,
            kurikinton: None,
        };
        let flavors = Flavor::all();
        let mut k: usize = 0;
        while k < 3
            invariant
                k <= 3,
                flavors@ == seq![Flavor::Tsubuan, Flavor::Custard, Flavor::Kurikinton],
                well_formed(self.data@),
                forall|flavor: Flavor|
                    #![trigger in_line.at(flavor)]
                    in_line.at(flavor) == demand_in_line(self.data@.orders, flavor),
                forall|j: int|
                    0 <= j < k ==> minutes_view(wait_times.at(#[trigger] flavors[j]))
                        == walk_in_wait(self.data@, flavors[j]),
            decreases 3 - k,
        {
            let flavor = flavors[k];
            proof {
                lemma_demand_in_line_outstanding(self.data@.orders, flavor);
                assert(committed(self.data@, flavor) < usize::MAX);
            }
            let wanted: usize = *in_line.get(flavor) + 1;
            let there: usize = *self.data.unallocated_stock.get(flavor);
            let config = self.data.flavor_configs.get(flavor);
            let wait: Option<u128> = if wanted <= there {
                Some(0)
            } else if config.quantity_per_batch > 0 {
                Some(
                    batch_minutes(
                        wanted - there,
                        config.quantity_per_batch,
                        config.cooking_time_minutes,
                    ),
                )
            } else {
                None
            };
            let ghost before = wait_times;
            wait_times.set(flavor, wait);
            proof {
                assert forall|j: int| 0 <= j < k + 1 implies minutes_view(
                    wait_times.at(#[trigger] flavors[j]),
                ) == walk_in_wait(self.data@, flavors[j]) by {
                    if j < k {
                        assert(wait_times.at(flavors[j]) == before.at(flavors[j]));
                    }
                }
            }
            k += 1;
        }
        proof {
            assert forall|flavor: Flavor|
                #![trigger wait_times.at(flavor)]
                minutes_view(wait_times.at(flavor)) == walk_in_wait(self.data@, flavor) by {
                assert(flavor == flavors[0] || flavor == flavors[1] || flavor == flavors[2]);
            }
        }
        WaitTimeResponse { wait_times }
    }

    /// Whether the stock holds what each item of the order asks for.
    pub fn can_fulfill(order: &Order, stock: &PerFlavor<usize>) -> (r: bool)
        ensures
            r == can_fulfill(order@.items, *stock),
    {
        let mut k: usize = 0;
        while k < order.items.len()
            invariant
                k <= order.items.len(),
                forall|j: int|
                    0 <= j < k ==> stock.at(#[trigger] order.items[j].flavor)
                        >= order.items[j].quantity,
            decreases order.items.len() - k,
        {
            let item = &order.items[k];
            if *stock.get(item.flavor) < item.quantity {
                return false;
            }
            k += 1;
        }
        true
    }

    /// Takes the order's items from the stock.
    pub fn fulfill(order: &Order, stock: &mut PerFlavor<usize>)
        ensures
            *final(stock) == fulfill(order@.items, *old(stock)),
    {
        let mut k: usize = 0;
        while k < order.items.len()
            invariant
                k <= order.items.len(),
                *stock == fulfill(order.items@.take(k as int), *old(stock)),
            decreases order.items.len() - k,
        {
            let item = &order.items[k];
            let had: usize = *stock.get(item.flavor);
            let left: usize = if had >= item.quantity {
                had - item.quantity
            } else {
                0
            };
            stock.set(item.flavor, left);
            proof {
                assert(order.items@.take(k + 1).drop_last() =~= order.items@.take(k as int));
            }
            k += 1;
        }
        proof {
            assert(order.items@.take(k as int) =~= order.items@);
        }
    }
}

} // verus!
