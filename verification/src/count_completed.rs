//! How many pieces were sold.

use vstd::prelude::*;
use crate::changes::demand_within;
use crate::data::{Data, Flavor, Order, OrderStatus, OrderView, PerFlavor, order_views};
use crate::reconcile::demand;

verus! {

/// The pieces of `flavor` in the completed orders.
pub open spec fn sold(orders: Seq<OrderView>, flavor: Flavor) -> nat
    decreases orders.len(),
{
    if orders.len() == 0 {
        0
    } else {
        let rest = sold(orders.drop_last(), flavor);
        if orders.last().status == OrderStatus::Completed {
            rest + demand(orders.last().items, flavor)
        } else {
            rest
        }
    }
}

/// The completed orders among the first few hold no more than those among
/// all.
proof fn lemma_sold_prefix(orders: Seq<OrderView>, n: nat, flavor: Flavor)
    requires
        n <= orders.len(),
    ensures
        sold(orders.take(n as int), flavor) <= sold(orders, flavor),
    decreases orders.len() - n,
{
    if n < orders.len() {
        lemma_sold_prefix(orders, n + 1, flavor);
        assert(orders.take(n as int + 1).drop_last() =~= orders.take(n as int));
    } else {
        assert(orders.take(n as int) =~= orders);
    }
}

/// The pieces of `flavor` in the completed orders, if they can be counted
/// in a machine word.
fn count_flavor(orders: &Vec<Order>, flavor: Flavor) -> (r: Option<usize>)
    ensures
        match r {
            Some(count) => count == sold(order_views(orders@), flavor),
            None => sold(order_views(orders@), flavor) > usize::MAX,
        },
{
    let ghost views = order_views(orders@);
    let mut count: usize = 0;
    let mut i: usize = 0;
    while i < orders.len()
        invariant
            i <= orders.len(),
            views == order_views(orders@),
            count == sold(views.take(i as int), flavor),
        decreases orders.len() - i,
    {
        proof {
            assert(views.take(i + 1).drop_last() =~= views.take(i as int));
            assert(views.take(i + 1).last() == orders[i as int]@);
            lemma_sold_prefix(views, (i + 1) as nat, flavor);
        }
        if orders[i].status == OrderStatus::Completed {
            match demand_within(&orders[i].items, flavor, usize::MAX - count) {
                Some(more) => {
                    count = count + more;
                },
                None => {
                    return None;
                },
            }
        }
        i += 1;
    }
    proof {
        assert(views.take(i as int) =~= views);
    }
    Some(count)
}

/// For each flavor, the pieces in the completed orders; `None` if those
/// of some flavor cannot be counted in a machine word.
pub fn count_completed(data: &Data) -> (r: Option<PerFlavor<usize>>)
    ensures
        match r {
            Some(counts) => forall|flavor: Flavor|
                #![trigger counts.at(flavor)]
                counts.at(flavor) == sold(data@.orders, flavor),
            None => exists|flavor: Flavor| #[trigger] sold(data@.orders, flavor) > usize::MAX,
        },
{
    let tsubuan = match count_flavor(&data.orders, Flavor::Tsubuan) {
        Some(count) => count,
        None => {
            assert(sold(data@.orders, Flavor::Tsubuan) > usize::MAX);
            return None;
        },
    };
    let custard = match count_flavor(&data.orders, Flavor::Custard) {
        Some(count) => count,
        None => {
            assert(sold(data@.orders, Flavor::Custard) > usize::MAX);
            return None;
        },
    };
    let kurikinton = match count_flavor(&data.orders, Flavor::Kurikinton) {
        Some(count) => count,
        None => {
            assert(sold(data@.orders, Flavor::Kurikinton) > usize::MAX);
            return None;
        },
    };
    Some(PerFlavor { tsubuan, custard, kurikinton })
}

/// The pieces of all flavors together; `None` if they cannot be counted
/// in a machine word.
pub fn total(counts: &PerFlavor<usize>) -> (r: Option<usize>)
    ensures
        match r {
            Some(sum) => sum == counts.tsubuan + counts.custard + counts.kurikinton,
            None => counts.tsubuan + counts.custard + counts.kurikinton > usize::MAX,
        },
{
    if counts.custard > usize::MAX - counts.tsubuan {
        return None;
    }
    let two: usize = counts.tsubuan + counts.custard;
    if counts.kurikinton > usize::MAX - two {
        return None;
    }
    Some(two + counts.kurikinton)
}

} // verus!
