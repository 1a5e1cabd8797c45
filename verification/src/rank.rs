//! Ranking: players by win rate, the highest first; among equal rates the
//! earlier entry stays first.

use vstd::prelude::*;
use vstd::set_lib::{lemma_int_range, lemma_subset_equality, set_int_range};
use crate::stats::{stats_views, StatsView, UserStats};

verus! {

/// Numerator of the win rate: the wins, or zero for a player without games.
pub open spec fn rate_num(s: StatsView) -> nat {
    if s.games == 0 {
        0
    } else {
        s.wins
    }
}

/// Denominator of the win rate: the games, or one for a player without games.
pub open spec fn rate_den(s: StatsView) -> nat {
    if s.games == 0 {
        1
    } else {
        s.games
    }
}

/// The win rate of `a` is strictly higher than that of `b`.
pub open spec fn higher_rate(a: StatsView, b: StatsView) -> bool {
    rate_num(a) * rate_den(b) > rate_num(b) * rate_den(a)
}

/// Entry `a` is ranked before entry `b`: its rate is higher, or the rates are
/// equal and `a` comes first.
pub open spec fn ranks_before(stats: Seq<StatsView>, a: int, b: int) -> bool {
    higher_rate(stats[a], stats[b]) || (!higher_rate(stats[b], stats[a]) && a < b)
}

/// `order` lists positions of `stats`, each ranked before all that follow it.
pub open spec fn is_ranked(stats: Seq<StatsView>, order: Seq<usize>) -> bool {
    &&& forall|k: int| 0 <= k < order.len() ==> (#[trigger] order[k]) < stats.len()
    &&& forall|k: int, l: int|
        0 <= k < l < order.len() ==> ranks_before(stats, #[trigger] order[k] as int, #[trigger] order[l] as int)
}

/// `order` is the ranking of all entries of `stats`.
pub open spec fn is_ranking(stats: Seq<StatsView>, order: Seq<usize>) -> bool {
    order.len() == stats.len() && is_ranked(stats, order)
}

/// The ranking of the entries: there is exactly one.
pub open spec fn ranking(stats: Seq<StatsView>) -> Seq<usize> {
    choose|order: Seq<usize>| is_ranking(stats, order)
}

/// A rate above a second one is above every rate that the second one is not below.
pub proof fn lemma_higher_rate_transitive(x: StatsView, y: StatsView, z: StatsView)
    requires
        higher_rate(x, y),
        !higher_rate(z, y),
    ensures
        higher_rate(x, z),
{
    let (xn, xd) = (rate_num(x) as int, rate_den(x) as int);
    let (yn, yd) = (rate_num(y) as int, rate_den(y) as int);
    let (zn, zd) = (rate_num(z) as int, rate_den(z) as int);
    assert(xn * yd * zd > yn * xd * zd) by (nonlinear_arith)
        requires
            xn * yd > yn * xd,
            zd > 0,
    ;
    assert(yn * zd * xd >= zn * yd * xd) by (nonlinear_arith)
        requires
            zn * yd <= yn * zd,
            xd > 0,
    ;
    assert(xn * zd > zn * xd) by (nonlinear_arith)
        requires
            xn * yd * zd > yn * xd * zd,
            yn * zd * xd >= zn * yd * xd,
            yd > 0,
    ;
}

/// A ranking names no entry twice.
pub proof fn lemma_ranked_no_duplicates(stats: Seq<StatsView>, order: Seq<usize>)
    requires
        is_ranked(stats, order),
    ensures
        order.no_duplicates(),
{
    assert forall|k: int, l: int| 0 <= k < order.len() && 0 <= l < order.len() && k != l implies order[k]
        != order[l] by {
        if k < l {
            assert(ranks_before(stats, order[k] as int, order[l] as int));
        } else {
            assert(ranks_before(stats, order[l] as int, order[k] as int));
        }
    }
}

/// A ranking names every entry.
pub proof fn lemma_ranking_covers(stats: Seq<StatsView>, order: Seq<usize>, v: int)
    requires
        is_ranking(stats, order),
        0 <= v < stats.len(),
    ensures
        exists|k: int| 0 <= k < order.len() && #[trigger] order[k] == v,
{
    lemma_ranked_no_duplicates(stats, order);
    let positions = Seq::new(order.len(), |k: int| order[k] as int);
    let range = set_int_range(0, stats.len() as int);
    assert(positions.no_duplicates());
    positions.unique_seq_to_set();
    lemma_int_range(0, stats.len() as int);
    assert forall|x: int| positions.to_set().contains(x) implies range.contains(x) by {
        let k = choose|k: int| 0 <= k < positions.len() && positions[k] == x;
        assert(order[k] < stats.len());
    }
    lemma_subset_equality(positions.to_set(), range);
    assert(range.contains(v));
    assert(positions.contains(v));
    let k = choose|k: int| 0 <= k < positions.len() && positions[k] == v;
    assert(order[k] == v);
}

proof fn lemma_rankings_agree(stats: Seq<StatsView>, a: Seq<usize>, b: Seq<usize>, k: int)
    requires
        is_ranking(stats, a),
        is_ranking(stats, b),
        0 <= k < stats.len(),
    ensures
        forall|j: int| 0 <= j <= k ==> a[j] == b[j],
    decreases k,
{
    if k > 0 {
        lemma_rankings_agree(stats, a, b, k - 1);
    }
    if a[k] != b[k] {
        lemma_ranked_no_duplicates(stats, a);
        lemma_ranked_no_duplicates(stats, b);
        lemma_ranking_covers(stats, b, a[k] as int);
        lemma_ranking_covers(stats, a, b[k] as int);
        let q = choose|q: int| 0 <= q < b.len() && #[trigger] b[q] == a[k] as int;
        let p = choose|p: int| 0 <= p < a.len() && #[trigger] a[p] == b[k] as int;
        if q < k {
            assert(a[q] == b[q]);
        }
        if p < k {
            assert(a[p] == b[p]);
        }
        assert(ranks_before(stats, b[k] as int, b[q] as int));
        assert(ranks_before(stats, a[k] as int, a[p] as int));
    }
}

/// The entries have one ranking only.
pub proof fn lemma_ranking_unique(stats: Seq<StatsView>, a: Seq<usize>, b: Seq<usize>)
    requires
        is_ranking(stats, a),
        is_ranking(stats, b),
    ensures
        a == b,
{
    if stats.len() > 0 {
        lemma_rankings_agree(stats, a, b, stats.len() - 1);
    }
    assert(a =~= b);
}

/// Whether the win rate of `a` is strictly higher than that of `b`.
pub fn has_higher_rate(a: &UserStats, b: &UserStats) -> (r: bool)
    ensures
        r == higher_rate(a@, b@),
{
    let an: u128 = if a.games == 0 { 0 } else { a.wins as u128 };
    let ad: u128 = if a.games == 0 { 1 } else { a.games as u128 };
    let bn: u128 = if b.games == 0 { 0 } else { b.wins as u128 };
    let bd: u128 = if b.games == 0 { 1 } else { b.games as u128 };
    assert(an * bd <= 0xffff_ffff_ffff_ffff * 0xffff_ffff_ffff_ffff) by (nonlinear_arith)
        requires
            an <= 0xffff_ffff_ffff_ffff,
            bd <= 0xffff_ffff_ffff_ffff,
    ;
    assert(bn * ad <= 0xffff_ffff_ffff_ffff * 0xffff_ffff_ffff_ffff) by (nonlinear_arith)
        requires
            bn <= 0xffff_ffff_ffff_ffff,
            ad <= 0xffff_ffff_ffff_ffff,
    ;
    an * bd > bn * ad
}

/// The positions of the entries in ranked order: by win rate, the highest
/// first, entries of equal rate in the order in which they stand.
pub fn rank_order(stats: &Vec<UserStats>) -> (order: Vec<usize>)
    ensures
        is_ranking(stats_views(stats@), order@),
        order@ == ranking(stats_views(stats@)),
{
    let ghost sv = stats_views(stats@);
    let mut order: Vec<usize> = Vec::new();
    let mut i: usize = 0;
    while i < stats.len()
        invariant
            i <= stats.len(),
            sv == stats_views(stats@),
            order.len() == i,
            is_ranked(sv, order@),
            forall|k: int| 0 <= k < order.len() ==> (#[trigger] order[k]) < i,
        decreases stats.len() - i,
    {
        let ghost before = order@;
        let mut p: usize = 0;
        while p < order.len() && !has_higher_rate(&stats[i], &stats[order[p]])
            invariant
                p <= order.len(),
                order@ == before,
                i < stats.len(),
                sv == stats_views(stats@),
                forall|k: int| 0 <= k < order.len() ==> (#[trigger] order[k]) < i,
                forall|k: int| 0 <= k < p ==> !higher_rate(sv[i as int], sv[(#[trigger] order[k]) as int]),
            decreases order.len() - p,
        {
            p = p + 1;
        }
        order.insert(p, i);
        proof {
            assert forall|k: int, l: int| 0 <= k < l < order.len() implies ranks_before(
                sv,
                #[trigger] order[k] as int,
                #[trigger] order[l] as int,
            ) by {
                if l < p {
                    assert(order[k] == before[k] && order[l] == before[l]);
                } else if l == p {
                    assert(order[k] == before[k]);
                } else if k < p {
                    assert(order[k] == before[k] && order[l] == before[l - 1]);
                } else if k == p {
                    assert(order[l] == before[l - 1]);
                    assert(higher_rate(sv[i as int], sv[before[p as int] as int]));
                    if l - 1 > p {
                        assert(ranks_before(sv, before[p as int] as int, before[l - 1] as int));
                        lemma_higher_rate_transitive(
                            sv[i as int],
                            sv[before[p as int] as int],
                            sv[before[l - 1] as int],
                        );
                    }
                } else {
                    assert(order[k] == before[k - 1] && order[l] == before[l - 1]);
                }
            }
            assert forall|k: int| 0 <= k < order.len() implies (#[trigger] order[k]) < i + 1 by {
                if k < p {
                    assert(order[k] == before[k]);
                } else if k > p {
                    assert(order[k] == before[k - 1]);
                }
            }
        }
        i = i + 1;
    }
    proof {
        lemma_ranking_unique(sv, order@, ranking(sv));
    }
    order
}

} // verus!
