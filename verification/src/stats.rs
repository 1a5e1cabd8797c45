//! Per-player statistics: grouping the records of a period and ranking the players.

use vstd::prelude::*;
use crate::parse::{record_views, RecordView, ScoreRecord};
use crate::user::{User, UserView};

verus! {

/// What one player did over the period.
///
/// The win rate is the fraction `wins / games`, and zero for a player without
/// games. The average score is `score_sum / wins`; a player without a numeric
/// result has no average, and the report writes `n/a` in its place.
#[derive(Debug, Clone, PartialEq, Eq)]
pub struct UserStats {
    pub user: User,
    /// Number of records of the player.
    pub games: usize,
    /// Number of records with a numeric result.
    pub wins: usize,
    /// Sum of the numeric results.
    pub score_sum: i128,
}

/// The mathematical value of a [`UserStats`].
pub struct StatsView {
    pub user: UserView,
    pub games: nat,
    pub wins: nat,
    pub score_sum: int,
}

impl View for UserStats {
    type V = StatsView;

    open spec fn view(&self) -> StatsView {
        StatsView {
            user: self.user@,
            games: self.games as nat,
            wins: self.wins as nat,
            score_sum: self.score_sum as int,
        }
    }
}

/// The values of a sequence of statistics, in order.
pub open spec fn stats_views(v: Seq<UserStats>) -> Seq<StatsView> {
    Seq::new(v.len(), |i: int| v[i]@)
}

/// What one record adds to the statistics of player `u`.
pub open spec fn tally_one(r: RecordView, u: UserView) -> (nat, nat, int) {
    if r.user != u {
        (0, 0, 0)
    } else {
        match r.score {
            Some(n) => (1, 1, n as int),
            None => (1, 0, 0),
        }
    }
}

/// Number of records of player `u`.
pub open spec fn games_of(rs: Seq<RecordView>, u: UserView) -> nat
    decreases rs.len(),
{
    if rs.len() == 0 {
        0
    } else {
        games_of(rs.drop_last(), u) + tally_one(rs.last(), u).0
    }
}

/// Number of records of player `u` with a numeric result.
pub open spec fn wins_of(rs: Seq<RecordView>, u: UserView) -> nat
    decreases rs.len(),
{
    if rs.len() == 0 {
        0
    } else {
        wins_of(rs.drop_last(), u) + tally_one(rs.last(), u).1
    }
}

/// Sum of the numeric results of player `u`.
pub open spec fn score_sum_of(rs: Seq<RecordView>, u: UserView) -> int
    decreases rs.len(),
{
    if rs.len() == 0 {
        0
    } else {
        score_sum_of(rs.drop_last(), u) + tally_one(rs.last(), u).2
    }
}

/// The statistics of player `u` over the records `rs`.
pub open spec fn stats_of(rs: Seq<RecordView>, u: UserView) -> StatsView {
    StatsView {
        user: u,
        games: games_of(rs, u),
        wins: wins_of(rs, u),
        score_sum: score_sum_of(rs, u),
    }
}

/// The players of the records, each once, in the order in which they first occur.
pub open spec fn distinct_users(rs: Seq<RecordView>) -> Seq<UserView>
    decreases rs.len(),
{
    if rs.len() == 0 {
        Seq::empty()
    } else {
        let d = distinct_users(rs.drop_last());
        if d.contains(rs.last().user) {
            d
        } else {
            d.push(rs.last().user)
        }
    }
}

/// One entry of statistics for each player of the records.
pub open spec fn aggregate_spec(rs: Seq<RecordView>) -> Seq<StatsView> {
    let d = distinct_users(rs);
    Seq::new(d.len(), |i: int| stats_of(rs, d[i]))
}

/// No player occurs twice among the distinct players.
pub proof fn lemma_distinct_users_no_duplicates(rs: Seq<RecordView>)
    ensures
        distinct_users(rs).no_duplicates(),
    decreases rs.len(),
{
    if rs.len() > 0 {
        lemma_distinct_users_no_duplicates(rs.drop_last());
    }
}

/// A player is among the distinct players exactly if a record names the player.
pub proof fn lemma_distinct_users_complete(rs: Seq<RecordView>, u: UserView)
    ensures
        distinct_users(rs).contains(u) <==> games_of(rs, u) > 0,
    decreases rs.len(),
{
    if rs.len() > 0 {
        let d = distinct_users(rs.drop_last());
        lemma_distinct_users_complete(rs.drop_last(), u);
        if d.contains(rs.last().user) {
        } else {
            let e = d.push(rs.last().user);
            assert(e[d.len() as int] == rs.last().user);
            if d.contains(u) {
                let k = choose|k: int| 0 <= k < d.len() && d[k] == u;
                assert(e[k] == u);
            }
        }
    }
}

/// Wins never exceed games, games never exceed the number of records, and the
/// sum of the results is bounded by the range of a result times the wins.
pub proof fn lemma_tally_bounds(rs: Seq<RecordView>, u: UserView)
    ensures
        wins_of(rs, u) <= games_of(rs, u) <= rs.len(),
        -0x8000_0000 * wins_of(rs, u) <= score_sum_of(rs, u) <= 0x7fff_ffff * wins_of(rs, u),
        games_of(rs, u) == 0 ==> score_sum_of(rs, u) == 0,
    decreases rs.len(),
{
    if rs.len() > 0 {
        lemma_tally_bounds(rs.drop_last(), u);
    }
}

/// The statistics of a player do not depend on which part of the records comes first.
pub proof fn lemma_stats_order_free(a: Seq<RecordView>, b: Seq<RecordView>, u: UserView)
    ensures
        stats_of(a + b, u) == stats_of(b + a, u),
{
    lemma_tally_concat(a, b, u);
    lemma_tally_concat(b, a, u);
}

/// The statistics over two runs of records are the sums of those over each.
pub proof fn lemma_tally_concat(a: Seq<RecordView>, b: Seq<RecordView>, u: UserView)
    ensures
        games_of(a + b, u) == games_of(a, u) + games_of(b, u),
        wins_of(a + b, u) == wins_of(a, u) + wins_of(b, u),
        score_sum_of(a + b, u) == score_sum_of(a, u) + score_sum_of(b, u),
    decreases b.len(),
{
    if b.len() == 0 {
        assert(a + b =~= a);
    } else {
        lemma_tally_concat(a, b.drop_last(), u);
        assert((a + b).drop_last() =~= a + b.drop_last());
    }
}

/// Aggregating the same records again gives the same statistics.
pub proof fn lemma_aggregate_repeatable(rs: Seq<RecordView>, first: Seq<StatsView>, second: Seq<StatsView>)
    requires
        first == aggregate_spec(rs),
        second == aggregate_spec(rs),
    ensures
        first == second,
{
}

/// Groups the records by player and counts, for each player, the games, the
/// wins and the sum of the numeric results. The players come in the order in
/// which they first occur.
pub fn aggregate(records: &Vec<ScoreRecord>) -> (out: Vec<UserStats>)
    ensures
        stats_views(out@) == aggregate_spec(record_views(records@)),
        forall|j: int| 0 <= j < out.len() ==> 0 < (#[trigger] out[j]).games && out[j].wins <= out[j].games,
{
    let ghost rs = record_views(records@);
    let mut out: Vec<UserStats> = Vec::new();
    let mut i: usize = 0;
    assert(stats_views(out@) =~= aggregate_spec(rs.take(0)));
    while i < records.len()
        invariant
            i <= records.len(),
            rs == record_views(records@),
            stats_views(out@) == aggregate_spec(rs.take(i as int)),
        decreases records.len() - i,
    {
        let ghost seen = rs.take(i as int);
        let ghost next = rs.take(i + 1);
        let ghost d = distinct_users(seen);
        let rec = &records[i];
        let ghost u = rec.user@;
        let (games, wins, sum): (usize, usize, i128) = match rec.score {
            Some(n) => (1, 1, n as i128),
            None => (1, 0, 0),
        };
        proof {
            assert(next.drop_last() =~= seen);
            assert(next.last() == rec@);
            assert(stats_views(out@).len() == out.len());
            assert(aggregate_spec(seen).len() == d.len());
            assert forall|k: int| 0 <= k < d.len() implies out[k]@ == stats_of(seen, d[k]) by {
                assert(stats_views(out@)[k] == out[k]@);
            }
            lemma_distinct_users_no_duplicates(seen);
            lemma_tally_bounds(seen, u);
            lemma_distinct_users_complete(seen, u);
        }
        let mut j: usize = 0;
        while j < out.len() && !out[j].user.same(&rec.user)
            invariant
                j <= out.len(),
                out.len() == d.len(),
                forall|k: int| 0 <= k < d.len() ==> (#[trigger] out[k])@ == stats_of(seen, d[k]),
                forall|k: int| 0 <= k < j ==> d[k] != u,
                u == rec.user@,
            decreases out.len() - j,
        {
            assert(out[j as int]@ == stats_of(seen, d[j as int]));
            j = j + 1;
        }
        if j < out.len() {
            assert(d[j as int] == u);
            let entry = UserStats {
                user: rec.user.duplicate(),
                games: out[j].games + games,
                wins: out[j].wins + wins,
                score_sum: out[j].score_sum + sum,
            };
            out.set(j, entry);
            proof {
                assert(distinct_users(next) == d);
                assert forall|k: int| 0 <= k < d.len() implies out[k]@ == stats_of(next, d[k]) by {
                    if k != j {
                        assert(d[k] != d[j as int]);
                    }
                }
                assert(stats_views(out@) =~= aggregate_spec(next));
            }
        } else {
            assert(!d.contains(u));
            let entry = UserStats { user: rec.user.duplicate(), games, wins, score_sum: sum };
            out.push(entry);
            proof {
                assert(distinct_users(next) == d.push(u));
                assert forall|k: int| 0 <= k < d.len() + 1 implies out[k]@ == stats_of(next, d.push(u)[k]) by {
                    if k < d.len() {
                        assert(d.contains(d[k]));
                    }
                }
                assert(stats_views(out@) =~= aggregate_spec(next));
            }
        }
        i = i + 1;
    }
    proof {
        assert(rs.take(i as int) =~= rs);
        let d = distinct_users(rs);
        assert(stats_views(out@).len() == out.len());
        assert(aggregate_spec(rs).len() == d.len());
        assert forall|j: int| 0 <= j < out.len() implies 0 < (#[trigger] out[j]).games && out[j].wins
            <= out[j].games by {
            assert(stats_views(out@)[j] == out[j]@);
            assert(d.contains(d[j]));
            lemma_distinct_users_complete(rs, d[j]);
            lemma_tally_bounds(rs, d[j]);
        }
    }
    out
}

} // verus!
