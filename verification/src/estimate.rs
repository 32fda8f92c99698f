//! How long a customer will wait.
//!
//! Two estimates are made, both from the records as they stand and without
//! changing them: one for an order that is waiting, one for somebody who
//! walks up and asks for a single piece. Flavors are baked side by side, so
//! an order waits for its slowest flavor.

use vstd::prelude::*;
use crate::data::{
    DataView, Flavor, FlavorConfig, Order, OrderStatus, OrderView, PerFlavor, Timestamp,
    order_views,
};
use crate::engine::add_demand;
use crate::reconcile::{demand, lemma_outstanding_prefix, outstanding};

verus! {

/// What the order asks for of `flavor` if it is waiting and was placed no
/// later than `at`, and nothing otherwise.
pub open spec fn share_ahead(order: OrderView, at: Timestamp, flavor: Flavor) -> nat {
    if order.status == OrderStatus::Waiting && order.ordered_at.not_after(at) {
        demand(order.items, flavor)
    } else {
        0
    }
}

/// The pieces of `flavor` asked for by the waiting orders placed no later
/// than `at`.
pub open spec fn demand_ahead(orders: Seq<OrderView>, at: Timestamp, flavor: Flavor) -> nat
    decreases orders.len(),
{
    if orders.len() == 0 {
        0
    } else {
        demand_ahead(orders.drop_last(), at, flavor) + share_ahead(orders.last(), at, flavor)
    }
}

/// What is missing when `wanted` pieces are asked for and `stock` are
/// there.
pub open spec fn shortfall(wanted: nat, stock: nat) -> nat {
    if wanted > stock {
        (wanted - stock) as nat
    } else {
        0
    }
}

/// The number of batches of `per_batch` pieces that it takes to bake
/// `needed` pieces: `needed / per_batch`, rounded up.
pub open spec fn batches(needed: nat, per_batch: nat) -> nat
    recommends
        per_batch > 0,
{
    ((needed + per_batch - 1) / per_batch as int) as nat
}

/// The minutes it takes to bake `needed` pieces of a flavor. Where nothing
/// is needed, and where the flavor is not being baked, that is zero.
pub open spec fn baking_minutes(needed: nat, config: FlavorConfig) -> nat {
    if needed == 0 || config.quantity_per_batch == 0 {
        0
    } else {
        batches(needed, config.quantity_per_batch as nat) * config.cooking_time_minutes as nat
    }
}

/// The minutes until an order placed at `at` has its pieces of `flavor`.
pub open spec fn flavor_wait(data: DataView, at: Timestamp, flavor: Flavor) -> nat {
    baking_minutes(
        shortfall(demand_ahead(data.orders, at, flavor), data.stock.at(flavor) as nat),
        data.configs.at(flavor),
    )
}

/// The longest wait among the flavors of the first `n` items of the order.
pub open spec fn longest_wait(data: DataView, order: OrderView, n: nat) -> nat
    decreases n,
{
    if n == 0 {
        0
    } else {
        let rest = longest_wait(data, order, (n - 1) as nat);
        let this = flavor_wait(data, order.ordered_at, order.items[n - 1].flavor);
        if this > rest {
            this
        } else {
            rest
        }
    }
}

/// The minutes the order is expected to wait, if it is waiting: the
/// longest wait among its flavors.
pub open spec fn estimated_wait(data: DataView, order: OrderView) -> Option<nat> {
    if order.status == OrderStatus::Waiting {
        Some(longest_wait(data, order, order.items.len()))
    } else {
        None
    }
}

/// What the order asks for of `flavor` if it is waiting or cooking, and
/// nothing otherwise.
pub open spec fn share_in_line(order: OrderView, flavor: Flavor) -> nat {
    if order.status == OrderStatus::Waiting || order.status == OrderStatus::Cooking {
        demand(order.items, flavor)
    } else {
        0
    }
}

/// The pieces of `flavor` asked for by the orders that are waiting or
/// cooking.
pub open spec fn demand_in_line(orders: Seq<OrderView>, flavor: Flavor) -> nat
    decreases orders.len(),
{
    if orders.len() == 0 {
        0
    } else {
        demand_in_line(orders.drop_last(), flavor) + share_in_line(orders.last(), flavor)
    }
}

/// The minutes somebody waits who walks up now and asks for one piece of
/// `flavor`: none if the stock covers the line and one more, else the time
/// to bake what is missing, and `None` if the flavor is not being baked.
pub open spec fn walk_in_wait(data: DataView, flavor: Flavor) -> Option<nat> {
    let wanted = demand_in_line(data.orders, flavor) + 1;
    let config = data.configs.at(flavor);
    if wanted <= data.stock.at(flavor) {
        Some(0)
    } else if config.quantity_per_batch > 0 {
        Some(
            batches((wanted - data.stock.at(flavor)) as nat, config.quantity_per_batch as nat)
                * config.cooking_time_minutes as nat,
        )
    } else {
        None
    }
}

/// The walk-in wait for every flavor.
pub open spec fn walk_in_waits(data: DataView) -> PerFlavor<Option<nat>> {
    PerFlavor {
        tsubuan: walk_in_wait(data, Flavor::Tsubuan),
        custard: walk_in_wait(data, Flavor::Custard),
        kurikinton: walk_in_wait(data, Flavor::Kurikinton),
    }
}

/// `batches` rounds up: that many batches give enough, and one fewer would
/// not.
pub proof fn lemma_batches_round_up(needed: nat, per_batch: nat)
    requires
        per_batch > 0,
    ensures
        batches(needed, per_batch) * per_batch >= needed,
        needed > 0 ==> (batches(needed, per_batch) - 1) * per_batch < needed,
        needed > 0 ==> batches(needed, per_batch) == (needed - 1) / per_batch as int + 1,
        batches(needed, per_batch) <= needed,
{
    let b = (needed + per_batch - 1) / per_batch as int;
    assert(b * per_batch <= needed + per_batch - 1 < b * per_batch + per_batch) by (nonlinear_arith)
        requires
            b == (needed + per_batch - 1) / per_batch as int,
            per_batch > 0,
    ;
    assert(b >= 0) by (nonlinear_arith)
        requires
            b == (needed + per_batch - 1) / per_batch as int,
            per_batch > 0,
            needed >= 0,
    ;
    if needed > 0 {
        let c = (needed - 1) / per_batch as int;
        assert(c * per_batch <= needed - 1 < c * per_batch + per_batch) by (nonlinear_arith)
            requires
                c == (needed - 1) / per_batch as int,
                per_batch > 0,
        ;
        assert(b == c + 1) by (nonlinear_arith)
            requires
                c * per_batch <= needed - 1 < c * per_batch + per_batch,
                b * per_batch <= needed + per_batch - 1 < b * per_batch + per_batch,
                per_batch > 0,
        ;
        assert((b - 1) * per_batch < needed) by (nonlinear_arith)
            requires
                b == c + 1,
                c * per_batch <= needed - 1,
        ;
        assert(c <= needed - 1) by (nonlinear_arith)
            requires
                c * per_batch <= needed - 1,
                per_batch >= 1,
                c >= 0 || c < 0,
        ;
    } else {
        assert(b == 0) by (nonlinear_arith)
            requires
                b * per_batch <= per_batch - 1,
                b >= 0,
                per_batch > 0,
        ;
    }
    assert(b * per_batch >= needed) by (nonlinear_arith)
        requires
            needed + per_batch - 1 < b * per_batch + per_batch,
    ;
}

/// The waiting orders placed no later than `at` ask for no more than all
/// open orders claim.
pub proof fn lemma_demand_ahead_outstanding(orders: Seq<OrderView>, at: Timestamp, flavor: Flavor)
    ensures
        demand_ahead(orders, at, flavor) <= outstanding(orders, flavor),
    decreases orders.len(),
{
    if orders.len() > 0 {
        lemma_demand_ahead_outstanding(orders.drop_last(), at, flavor);
    }
}

/// The orders that are waiting or cooking ask for no more than all open
/// orders claim.
pub proof fn lemma_demand_in_line_outstanding(orders: Seq<OrderView>, flavor: Flavor)
    ensures
        demand_in_line(orders, flavor) <= outstanding(orders, flavor),
    decreases orders.len(),
{
    if orders.len() > 0 {
        lemma_demand_in_line_outstanding(orders.drop_last(), flavor);
    }
}

/// For each flavor, what the waiting orders placed no later than `at` ask
/// for.
pub(crate) fn demand_ahead_of(orders: &Vec<Order>, at: &Timestamp) -> (r: PerFlavor<usize>)
    requires
        forall|flavor: Flavor| #[trigger] outstanding(order_views(orders@), flavor) <= usize::MAX,
    ensures
        forall|flavor: Flavor|
            #![trigger r.at(flavor)]
            r.at(flavor) == demand_ahead(order_views(orders@), *at, flavor),
{
    let ghost views = order_views(orders@);
    let mut r: PerFlavor<usize> = PerFlavor { tsubuan: 0, custard: 0, kurikinton: 0 };
    let mut i: usize = 0;
    while i < orders.len()
        invariant
            i <= orders.len(),
            views == order_views(orders@),
            forall|flavor: Flavor| #[trigger] outstanding(views, flavor) <= usize::MAX,
            forall|flavor: Flavor|
                #![trigger r.at(flavor)]
                r.at(flavor) == demand_ahead(views.take(i as int), *at, flavor),
        decreases orders.len() - i,
    {
        let order = &orders[i];
        proof {
            assert(views.take(i + 1).drop_last() =~= views.take(i as int));
            assert(views.take(i + 1).last() == order@);
        }
        if order.status == OrderStatus::Waiting && order.ordered_at.is_not_after(at) {
            proof {
                assert forall|flavor: Flavor|
                    #![trigger r.at(flavor)]
                    r.at(flavor) + demand(order.items@, flavor) <= usize::MAX by {
                    lemma_demand_ahead_outstanding(views.take(i + 1), *at, flavor);
                    lemma_outstanding_prefix(views, (i + 1) as nat, flavor);
                    assert(outstanding(views, flavor) <= usize::MAX);
                }
            }
            add_demand(&order.items, &mut r);
        }
        i += 1;
    }
    proof {
        assert(views.take(i as int) =~= views);
    }
    r
}

/// For each flavor, what the orders that are waiting or cooking ask for.
pub(crate) fn demand_in_line_of(orders: &Vec<Order>) -> (r: PerFlavor<usize>)
    requires
        forall|flavor: Flavor| #[trigger] outstanding(order_views(orders@), flavor) <= usize::MAX,
    ensures
        forall|flavor: Flavor|
            #![trigger r.at(flavor)]
            r.at(flavor) == demand_in_line(order_views(orders@), flavor),
{
    let ghost views = order_views(orders@);
    let mut r: PerFlavor<usize> = PerFlavor { tsubuan: 0, custard: 0, kurikinton: 0 };
    let mut i: usize = 0;
    while i < orders.len()
        invariant
            i <= orders.len(),
            views == order_views(orders@),
            forall|flavor: Flavor| #[trigger] outstanding(views, flavor) <= usize::MAX,
            forall|flavor: Flavor|
                #![trigger r.at(flavor)]
                r.at(flavor) == demand_in_line(views.take(i as int), flavor),
        decreases orders.len() - i,
    {
        let order = &orders[i];
        proof {
            assert(views.take(i + 1).drop_last() =~= views.take(i as int));
            assert(views.take(i + 1).last() == order@);
        }
        if order.status == OrderStatus::Waiting || order.status == OrderStatus::Cooking {
            proof {
                assert forall|flavor: Flavor|
                    #![trigger r.at(flavor)]
                    r.at(flavor) + demand(order.items@, flavor) <= usize::MAX by {
                    lemma_demand_in_line_outstanding(views.take(i + 1), flavor);
                    lemma_outstanding_prefix(views, (i + 1) as nat, flavor);
                    assert(outstanding(views, flavor) <= usize::MAX);
                }
            }
            add_demand(&order.items, &mut r);
        }
        i += 1;
    }
    proof {
        assert(views.take(i as int) =~= views);
    }
    r
}

/// The minutes it takes to bake `needed` pieces in batches of `per_batch`
/// that take `minutes` each.
pub(crate) fn batch_minutes(needed: usize, per_batch: u32, minutes: u32) -> (r: u128)
    requires
        needed > 0,
        per_batch > 0,
    ensures
        r == batches(needed as nat, per_batch as nat) * minutes as nat,
{
    proof {
        lemma_batches_round_up(needed as nat, per_batch as nat);
    }
    let count: usize = (needed - 1) / (per_batch as usize) + 1;
    assert(count as u128 * minutes as u128 <= 0xffff_ffff_ffff_ffff * 0xffff_ffff) by (nonlinear_arith)
        requires
            count <= 0xffff_ffff_ffff_ffff,
            minutes <= 0xffff_ffff,
    ;
    count as u128 * minutes as u128
}

} // verus!
