use vstd::prelude::*;
use crate::accumulator::{GroupModel, SimilarityAccumulator};
use crate::similarity::Fraction;

verus! {

/// Group `i` is listed before group `j`: it has the higher count, or the same
/// count and was opened earlier.
pub open spec fn ranks_before(groups: Seq<GroupModel>, i: int, j: int) -> bool {
    groups[i].count > groups[j].count || (groups[i].count == groups[j].count && i < j)
}

/// `order` lists every group once, by descending count, groups of equal count
/// in the order they were opened.
pub open spec fn is_report_order(groups: Seq<GroupModel>, order: Seq<usize>) -> bool {
    &&& order.len() == groups.len()
    &&& forall|k: int| 0 <= k < order.len() ==> #[trigger] order[k] < groups.len()
    &&& forall|a: int, b: int|
        0 <= a < b < order.len() ==> ranks_before(groups, #[trigger] order[a] as int, #[trigger] order[b] as int)
    &&& forall|v: int| 0 <= v < groups.len() ==> #[trigger] lists(order, v)
}

/// `v` appears in `order`.
pub open spec fn lists(order: Seq<usize>, v: int) -> bool {
    exists|k: int| 0 <= k < order.len() && order[k] == v
}

/// The order in which the groups are reported: by descending count, ties in
/// the order the groups were opened.
pub fn report_order(acc: &SimilarityAccumulator) -> (r: Vec<usize>)
    ensures
        is_report_order(acc.model(), r@),
{
    let groups = acc.groups();
    let ghost g = acc.model();
    let n = groups.len();
    let mut order: Vec<usize> = Vec::new();
    let mut i: usize = 0;
    while i < n
        invariant
            n == g.len(),
            groups@.len() == n,
            forall|k: int| 0 <= k < n ==> #[trigger] groups@[k].model() == g[k],
            i <= n,
            order@.len() == i,
            forall|k: int| 0 <= k < order@.len() ==> #[trigger] order@[k] < i,
            forall|a: int, b: int|
                0 <= a < b < order@.len() ==> ranks_before(g, #[trigger] order@[a] as int, #[trigger] order@[b] as int),
            forall|v: int| 0 <= v < i ==> #[trigger] lists(order@, v),
        decreases n - i,
    {
        let c = groups[i].count;
        assert(groups@[i as int].model() == g[i as int]);
        let mut p: usize = 0;
        while p < order.len() && groups[order[p]].count >= c
            invariant
                n == g.len(),
                groups@.len() == n,
                forall|k: int| 0 <= k < n ==> #[trigger] groups@[k].model() == g[k],
                i < n,
                c == g[i as int].count,
                order@.len() == i,
                forall|k: int| 0 <= k < order@.len() ==> #[trigger] order@[k] < i,
                p <= order@.len(),
                forall|q: int| 0 <= q < p ==> #[trigger] g[order@[q] as int].count >= c,
            decreases order@.len() - p,
        {
            assert(groups@[order@[p as int] as int].model() == g[order@[p as int] as int]);
            p += 1;
        }
        proof {
            if p < order@.len() {
                assert(groups@[order@[p as int] as int].model() == g[order@[p as int] as int]);
                assert forall|q: int| p <= q < order@.len() implies #[trigger] g[order@[q] as int].count < c by {
                    if q > p {
                        assert(ranks_before(g, order@[p as int] as int, order@[q] as int));
                    }
                }
            }
        }
        let ghost old_order = order@;
        order.insert(p, i);
        proof {
            assert(order@ == old_order.insert(p as int, i));
            assert forall|a: int, b: int| 0 <= a < b < order@.len() implies ranks_before(
                g,
                #[trigger] order@[a] as int,
                #[trigger] order@[b] as int,
            ) by {
                if b < p {
                    assert(ranks_before(g, old_order[a] as int, old_order[b] as int));
                } else if b == p {
                    assert(g[old_order[a] as int].count >= c);
                } else if a == p {
                    assert(g[old_order[b - 1] as int].count < c);
                } else if a < p {
                    assert(ranks_before(g, old_order[a] as int, old_order[b - 1] as int));
                } else {
                    assert(ranks_before(g, old_order[a - 1] as int, old_order[b - 1] as int));
                }
            }
        }
        proof {
            assert(order@[p as int] == i);
            assert(lists(order@, i as int));
            assert forall|v: int| 0 <= v < i + 1 implies #[trigger] lists(order@, v) by {
                if v < i {
                    assert(lists(old_order, v));
                    let k = choose|k: int| 0 <= k < old_order.len() && old_order[k] == v;
                    if k < p {
                        assert(order@[k] == v);
                    } else {
                        assert(order@[k + 1] == v);
                    }
                }
            }
        }
        i += 1;
    }
    order
}

/// Group `i` and group `j` are never each listed before the other.
proof fn lemma_ranks_before_asymmetric(groups: Seq<GroupModel>, i: int, j: int)
    ensures
        !(ranks_before(groups, i, j) && ranks_before(groups, j, i)),
{
}

/// The report order is determined by the groups alone: two orders that both
/// list every group once, by descending count, equal counts in opening order,
/// are the same, so reporting the same groups twice prints them alike.
pub proof fn report_order_is_unique(groups: Seq<GroupModel>, o1: Seq<usize>, o2: Seq<usize>)
    requires
        is_report_order(groups, o1),
        is_report_order(groups, o2),
    ensures
        o1 == o2,
{
    lemma_prefix_agrees(groups, o1, o2, o1.len() as int);
    assert(o1 =~= o2);
}

/// Two such orders agree on their first `k` positions.
proof fn lemma_prefix_agrees(groups: Seq<GroupModel>, o1: Seq<usize>, o2: Seq<usize>, k: int)
    requires
        is_report_order(groups, o1),
        is_report_order(groups, o2),
        0 <= k <= o1.len(),
    ensures
        forall|m: int| 0 <= m < k ==> o1[m] == o2[m],
    decreases k,
{
    if k > 0 {
        lemma_prefix_agrees(groups, o1, o2, k - 1);
        let m = k - 1;
        let x = o1[m] as int;
        let y = o2[m] as int;
        if x != y {
            assert(lists(o1, y));
            let p = choose|p: int| 0 <= p < o1.len() && o1[p] == y;
            assert(lists(o2, x));
            let q = choose|q: int| 0 <= q < o2.len() && o2[q] == x;
            if p < m {
                assert(o2[p] == y);
                assert(ranks_before(groups, o2[p] as int, o2[m] as int));
            } else if q < m {
                assert(o1[q] == x);
                assert(ranks_before(groups, o1[q] as int, o1[m] as int));
            } else {
                assert(p > m && q > m);
                assert(ranks_before(groups, o1[m] as int, o1[p] as int));
                assert(ranks_before(groups, o2[m] as int, o2[q] as int));
                lemma_ranks_before_asymmetric(groups, x, y);
            }
        }
    }
}

/// A fraction in thousandths, rounded half up.
pub open spec fn thousandths(f: Fraction) -> int {
    (2000 * (f.num as int) + f.den as int) / (2 * (f.den as int))
}

/// The value of `f` in thousandths, rounded half up, as the report prints it
/// with three decimals.
pub fn to_thousandths(f: Fraction) -> (r: u128)
    requires
        f.wf(),
    ensures
        r == thousandths(f),
{
    let top: u128 = 2000 * (f.num as u128) + (f.den as u128);
    let bottom: u128 = 2 * (f.den as u128);
    top / bottom
}

} // verus!
