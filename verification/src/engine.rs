//! Reconciling carried out: the three steps on the records themselves.

use vstd::prelude::*;
use crate::app::{AppRegistry, Notice, notice_views};
use crate::data::{
    Data, Flavor, FlavorConfig, Item, Order, OrderStatus, PerFlavor, Timestamp, order_views,
};
use crate::reconcile::{
    Fulfilment, NoticeView, call_up, can_fulfill, claim, committed, cooking_upto, demand,
    demand_upto, demote_all, demoted, fulfil_all, fulfil_upto, fulfill, is_cooking,
    lemma_cooking_frame, lemma_demand_covers_item, lemma_demand_take, lemma_fulfil_frame,
    lemma_join_place, lemma_line_demand_bounded, lemma_line_members, lemma_outstanding_same,
    lemma_reconcile_frame, lemma_reconcile_well_formed, lemma_waiting_line, line_upto, made_cooking,
    made_ready, mark_cooking, needed_from_production, next_batch_covers, notices_for, outstanding,
    precedes, ready_message, reconcile, waiting_line, well_formed,
};
use crate::text::push_decimal;

verus! {

/// Whether `a` is called up before `b`.
fn goes_before(a: &Order, b: &Order) -> (r: bool)
    ensures
        r == precedes(a@, b@),
{
    if a.is_priority != b.is_priority {
        a.is_priority
    } else if a.ordered_at != b.ordered_at {
        a.ordered_at.is_before(&b.ordered_at)
    } else {
        a.id < b.id
    }
}

/// The waiting orders in the sequence in which they are called up.
fn line_up(orders: &Vec<Order>) -> (line: Vec<usize>)
    ensures
        line@ == waiting_line(order_views(orders@)),
        forall|k: int| 0 <= k < line.len() ==> (#[trigger] line[k]) < orders.len(),
{
    let ghost views = order_views(orders@);
    let mut line: Vec<usize> = Vec::new();
    let mut n: usize = 0;
    while n < orders.len()
        invariant
            n <= orders.len(),
            views == order_views(orders@),
            line@ == line_upto(views, n as nat),
            forall|k: int| 0 <= k < line.len() ==> (#[trigger] line[k]) < n,
        decreases orders.len() - n,
    {
        if orders[n].status == OrderStatus::Waiting {
            let mut place: usize = line.len();
            while place > 0 && goes_before(&orders[n], &orders[line[place - 1]])
                invariant
                    n < orders.len(),
                    views == order_views(orders@),
                    place <= line.len(),
                    forall|k: int| 0 <= k < line.len() ==> (#[trigger] line[k]) < n,
                    forall|k: int|
                        place <= k < line.len() ==> precedes(
                            views[n as int],
                            views[#[trigger] line[k] as int],
                        ),
                decreases place,
            {
                place -= 1;
            }
            proof {
                lemma_join_place(views, line@, n, place as int);
            }
            line.insert(place, n);
        }
        proof {
            lemma_line_members(views, (n + 1) as nat);
        }
        n += 1;
    }
    line
}

/// The first step: every cooking order waits again.
fn demote(orders: &mut Vec<Order>)
    ensures
        order_views(final(orders)@) == demote_all(order_views(old(orders)@)),
{
    let mut i: usize = 0;
    while i < orders.len()
        invariant
            i <= orders.len(),
            orders.len() == old(orders).len(),
            forall|k: int| 0 <= k < i ==> (#[trigger] orders[k])@ == demoted(old(orders)[k]@),
            forall|k: int| i <= k < orders.len() ==> (#[trigger] orders[k]) == old(orders)[k],
        decreases orders.len() - i,
    {
        if orders[i].status == OrderStatus::Cooking {
            orders[i].status = OrderStatus::Waiting;
        }
        i += 1;
    }
    proof {
        assert(order_views(orders@) =~= demote_all(order_views(old(orders)@)));
    }
}

/// The words sent when the order with this number is ready.
fn ready_message_text(id: u32) -> (r: String)
    ensures
        r@ == ready_message(id),
{
    let mut r = String::from_str("#");
    push_decimal(&mut r, id as u128);
    r.append("番 のご注文の準備ができました！");
    r
}

/// Puts a notice for each target of the order into the outbox.
fn post_notices(order: &Order, outbox: &mut Vec<Notice>)
    ensures
        notice_views(final(outbox)@) == notice_views(old(outbox)@) + notices_for(order@),
{
    let mut j: usize = 0;
    while j < order.notify.len()
        invariant
            j <= order.notify.len(),
            notice_views(outbox@) == notice_views(old(outbox)@) + notices_for(order@).take(j as int),
        decreases order.notify.len() - j,
    {
        let notice = Notice {
            order_id: order.id,
            target: order.notify[j].clone(),
            message: ready_message_text(order.id),
        };
        let ghost before = outbox@;
        outbox.push(notice);
        proof {
            assert(notice_views(outbox@) =~= notice_views(before).push(notice@));
            assert(notices_for(order@).take(j + 1) =~= notices_for(order@).take(j as int).push(
                notice@,
            ));
            assert(notice_views(outbox@) =~= notice_views(old(outbox)@) + notices_for(
                order@,
            ).take(j + 1));
        }
        j += 1;
    }
    proof {
        assert(notices_for(order@).take(j as int) =~= notices_for(order@));
    }
}

/// The second step: the waiting orders are called up in their line, and
/// each one that the stock covers takes its pieces and is ready.
fn serve(data: &mut Data, outbox: &mut Vec<Notice>, now: Timestamp) -> (promoted: Vec<u32>)
    ensures
        ({
            let served = fulfil_all(old(data)@.orders, old(data)@.stock, now);
            &&& final(data)@.orders == served.orders
            &&& final(data)@.stock == served.stock
            &&& final(data)@.configs == old(data)@.configs
            &&& promoted@ == served.promoted
            &&& notice_views(final(outbox)@) == notice_views(old(outbox)@) + served.notices
        }),
{
    let line = line_up(&data.orders);
    let mut promoted: Vec<u32> = Vec::new();
    let ghost start = Fulfilment {
        orders: data@.orders,
        stock: data@.stock,
        promoted: Seq::empty(),
        notices: Seq::empty(),
    };
    let mut k: usize = 0;
    proof {
        assert(notice_views(outbox@) =~= notice_views(old(outbox)@) + Seq::<NoticeView>::empty());
    }
    while k < line.len()
        invariant
            k <= line.len(),
            data.orders.len() == old(data).orders.len(),
            data.flavor_configs == old(data).flavor_configs,
            forall|j: int| 0 <= j < line.len() ==> (#[trigger] line[j]) < data.orders.len(),
            fulfil_upto(start, line@, now, k as nat).orders == data@.orders,
            fulfil_upto(start, line@, now, k as nat).stock == data@.stock,
            fulfil_upto(start, line@, now, k as nat).promoted == promoted@,
            notice_views(outbox@) == notice_views(old(outbox)@) + fulfil_upto(
                start,
                line@,
                now,
                k as nat,
            ).notices,
        decreases line.len() - k,
    {
        let index: usize = line[k];
        let ghost state = fulfil_upto(start, line@, now, k as nat);
        let ghost order = data.orders[index as int]@;
        assert(state.orders[index as int] == order);
        if AppRegistry::can_fulfill(&data.orders[index], &data.unallocated_stock) {
            AppRegistry::fulfill(&data.orders[index], &mut data.unallocated_stock);
            data.orders[index].status = OrderStatus::Ready;
            data.orders[index].ready_at = Some(now);
            promoted.push(data.orders[index].id);
            post_notices(&data.orders[index], outbox);
            proof {
                assert(data.orders[index as int]@ == made_ready(order, now));
                assert(notices_for(made_ready(order, now)) =~= notices_for(order));
                assert(data@.orders =~= state.orders.update(index as int, made_ready(order, now)));
                let next = call_up(state, index as int, now);
                assert(notice_views(outbox@) =~= notice_views(old(outbox)@) + next.notices);
            }
        }
        k += 1;
    }
    promoted
}

/// Whether stock and one batch cover each item of the order, given what
/// goes to the orders before it.
fn all_within_next_batch(
    order: &Order,
    ahead: &PerFlavor<usize>,
    stock: &PerFlavor<usize>,
    configs: &PerFlavor<FlavorConfig>,
) -> (r: bool)
    requires
        forall|flavor: Flavor|
            #![trigger ahead.at(flavor)]
            ahead.at(flavor) + demand(order@.items, flavor) <= usize::MAX,
    ensures
        r == (order@.items.len() > 0 && forall|j: int|
            0 <= j < order@.items.len() ==> next_batch_covers(
                #[trigger] order@.items[j],
                ahead.at(order@.items[j].flavor) as nat,
                *stock,
                *configs,
            )),
{
    if order.items.len() == 0 {
        return false;
    }
    let mut j: usize = 0;
    while j < order.items.len()
        invariant
            j <= order.items.len(),
            forall|flavor: Flavor|
                #![trigger ahead.at(flavor)]
                ahead.at(flavor) + demand(order@.items, flavor) <= usize::MAX,
            forall|i: int|
                0 <= i < j ==> next_batch_covers(
                    #[trigger] order@.items[i],
                    ahead.at(order@.items[i].flavor) as nat,
                    *stock,
                    *configs,
                ),
        decreases order.items.len() - j,
    {
        let item = &order.items[j];
        proof {
            lemma_demand_covers_item(order@.items, j as int);
        }
        let wanted: usize = *ahead.get(item.flavor) + item.quantity;
        let there: usize = *stock.get(item.flavor);
        let needed: usize = if wanted > there {
            wanted - there
        } else {
            0
        };
        assert(needed == needed_from_production(
            ahead.at(item.flavor) as nat,
            item.quantity as nat,
            stock.at(item.flavor) as nat,
        ));
        if needed > 0 && needed > configs.get(item.flavor).quantity_per_batch as usize {
            return false;
        }
        j += 1;
    }
    true
}

/// Adds what the items ask for to the running totals.
pub(crate) fn add_demand(items: &Vec<Item>, totals: &mut PerFlavor<usize>)
    requires
        forall|flavor: Flavor|
            #![trigger old(totals).at(flavor)]
            old(totals).at(flavor) + demand(items@, flavor) <= usize::MAX,
    ensures
        forall|flavor: Flavor|
            #![trigger final(totals).at(flavor)]
            final(totals).at(flavor) == old(totals).at(flavor) + demand(items@, flavor),
{
    let mut j: usize = 0;
    while j < items.len()
        invariant
            j <= items.len(),
            forall|flavor: Flavor|
                #![trigger old(totals).at(flavor)]
                old(totals).at(flavor) + demand(items@, flavor) <= usize::MAX,
            forall|flavor: Flavor|
                #![trigger totals.at(flavor)]
                totals.at(flavor) == old(totals).at(flavor) + demand(
                    items@.take(j as int),
                    flavor,
                ),
        decreases items.len() - j,
    {
        let item = &items[j];
        proof {
            assert(items@.take(j + 1).drop_last() =~= items@.take(j as int));
            assert forall|flavor: Flavor| demand(items@.take(j + 1), flavor) <= demand(items@, flavor) by {
                lemma_demand_take(items@, (j + 1) as nat, flavor);
            }
            assert(old(totals).at(item.flavor) + demand(items@, item.flavor) <= usize::MAX);
        }
        let ghost before = *totals;
        let sum: usize = *totals.get(item.flavor) + item.quantity;
        totals.set(item.flavor, sum);
        proof {
            assert forall|flavor: Flavor|
                #![trigger totals.at(flavor)]
                totals.at(flavor) == old(totals).at(flavor) + demand(
                    items@.take(j + 1),
                    flavor,
                ) by {
                assert(before.at(flavor) == old(totals).at(flavor) + demand(
                    items@.take(j as int),
                    flavor,
                ));
                assert(items@.take(j + 1).last() == items@[j as int]);
            }
        }
        j += 1;
    }
    proof {
        assert(items@.take(j as int) =~= items@);
    }
}

/// The third step: among the orders still waiting, those that the next
/// batch covers are marked as cooking.
fn classify(data: &mut Data)
    requires
        forall|flavor: Flavor| #[trigger] outstanding(old(data)@.orders, flavor) <= usize::MAX,
    ensures
        final(data)@.orders == mark_cooking(
            old(data)@.orders,
            old(data)@.stock,
            old(data)@.configs,
        ),
        final(data)@.stock == old(data)@.stock,
        final(data)@.configs == old(data)@.configs,
{
    let line = line_up(&data.orders);
    let ghost base = data@.orders;
    let mut ahead: PerFlavor<usize> = PerFlavor { tsubuan: 0, custard: 0, kurikinton: 0 };
    let mut k: usize = 0;
    while k < line.len()
        invariant
            k <= line.len(),
            base.len() <= usize::MAX,
            line@ == waiting_line(base),
            data.orders.len() == base.len(),
            data.unallocated_stock == old(data).unallocated_stock,
            data.flavor_configs == old(data).flavor_configs,
            forall|flavor: Flavor| #[trigger] outstanding(base, flavor) <= usize::MAX,
            forall|j: int| 0 <= j < line.len() ==> (#[trigger] line[j]) < data.orders.len(),
            forall|i: int| 0 <= i < base.len() ==> (#[trigger] data@.orders[i]).items == base[i].items,
            data@.orders == cooking_upto(
                base,
                line@,
                data.unallocated_stock,
                data.flavor_configs,
                k as nat,
            ),
            forall|flavor: Flavor|
                #![trigger ahead.at(flavor)]
                ahead.at(flavor) == demand_upto(base, line@, k as nat, flavor),
        decreases line.len() - k,
    {
        let index: usize = line[k];
        let ghost before = data@.orders;
        proof {
            assert forall|flavor: Flavor|
                #![trigger ahead.at(flavor)]
                ahead.at(flavor) + demand(data.orders[index as int]@.items, flavor)
                    <= usize::MAX by {
                lemma_line_demand_bounded(base, (k + 1) as nat, flavor);
                assert(outstanding(base, flavor) <= usize::MAX);
                assert(data@.orders[index as int].items == base[index as int].items);
            }
        }
        let cooking = all_within_next_batch(
            &data.orders[index],
            &ahead,
            &data.unallocated_stock,
            &data.flavor_configs,
        );
        proof {
            assert(data@.orders[index as int].items == base[index as int].items);
            assert(cooking == is_cooking(
                base,
                line@,
                k as nat,
                data.unallocated_stock,
                data.flavor_configs,
            ));
        }
        if cooking {
            data.orders[index].status = OrderStatus::Cooking;
            proof {
                assert(data@.orders =~= before.update(index as int, made_cooking(before[index as int])));
            }
        }
        add_demand(&data.orders[index].items, &mut ahead);
        proof {
            assert(data@.orders[index as int].items == base[index as int].items);
        }
        k += 1;
    }
}

/// Reconciles the records at `now` and puts the notices owed into the
/// outbox. Returns the numbers of the orders made ready.
pub(crate) fn reconcile_records(data: &mut Data, outbox: &mut Vec<Notice>, now: Timestamp) -> (promoted: Vec<
    u32,
>)
    requires
        well_formed(old(data)@),
    ensures
        final(data)@ == reconcile(old(data)@, now).data,
        promoted@ == reconcile(old(data)@, now).promoted,
        notice_views(final(outbox)@) == notice_views(old(outbox)@) + reconcile(
            old(data)@,
            now,
        ).notices,
        well_formed(final(data)@),
{
    demote(&mut data.orders);
    let promoted = serve(data, outbox, now);
    proof {
        lemma_reconcile_frame(old(data)@, now);
        lemma_reconcile_well_formed(old(data)@, now);
        let served = fulfil_all(demote_all(old(data)@.orders), old(data)@.stock, now);
        let after = reconcile(old(data)@, now).data;
        assert(data@.orders == served.orders);
        let first = demote_all(old(data)@.orders);
        lemma_waiting_line(first);
        lemma_fulfil_frame(
            Fulfilment {
                orders: first,
                stock: old(data)@.stock,
                promoted: Seq::empty(),
                notices: Seq::empty(),
            },
            waiting_line(first),
            now,
            waiting_line(first).len(),
        );
        lemma_waiting_line(served.orders);
        lemma_cooking_frame(
            served.orders,
            waiting_line(served.orders),
            served.stock,
            old(data)@.configs,
            waiting_line(served.orders).len(),
        );
        assert forall|flavor: Flavor| #[trigger] outstanding(data@.orders, flavor) <= usize::MAX by {
            assert forall|i: int| 0 <= i < served.orders.len() implies claim(
                #[trigger] served.orders[i],
                flavor,
            ) == claim(after.orders[i], flavor) by {}
            lemma_outstanding_same(served.orders, after.orders, flavor);
            assert(committed(after, flavor) < usize::MAX);
        }
    }
    classify(data);
    promoted
}

} // verus!
