//! The report: a heading with the period, one row for each player in ranked
//! order, and a bound on the size of the whole.

use vstd::prelude::*;
use vstd::string::*;
use crate::rank::{rank_order, ranking};
use crate::stats::{stats_views, StatsView, UserStats};
use crate::text::{decimal, digit_char, push_decimal};
use crate::user::mention_text;

verus! {

/// The longest report, in characters, that is sent whole.
pub const REPORT_BUDGET: usize = 1950;

/// The win rate in whole percent, halves rounded up; zero without games.
pub open spec fn percent(s: StatsView) -> nat {
    if s.games == 0 {
        0
    } else {
        (200 * s.wins + s.games) / (2 * s.games)
    }
}

/// The size of a sum of results.
pub open spec fn magnitude(sum: int) -> nat {
    if sum < 0 {
        (-sum) as nat
    } else {
        sum as nat
    }
}

/// The average score in decimal notation with two places, cut off and not
/// rounded; `n/a` for a player without a numeric result.
pub open spec fn average_text(s: StatsView) -> Seq<char> {
    if s.wins == 0 {
        "n/a"@
    } else {
        let m = magnitude(s.score_sum);
        let hundredths = (m % s.wins) * 100 / s.wins;
        (if s.score_sum < 0 { "-"@ } else { ""@ }) + decimal(m / s.wins) + "."@ + seq![
            digit_char(hundredths / 10 % 10),
            digit_char(hundredths % 10),
        ]
    }
}

/// One row of the report.
pub open spec fn row_text(rank: nat, s: StatsView) -> Seq<char> {
    decimal(rank) + ". "@ + mention_text(s.user) + " \u{2014} **"@ + decimal(percent(s)) + "%** ("@
        + decimal(s.wins) + " wins / "@ + decimal(s.games) + " games; "@ + average_text(s)
        + " avg score)"@
}

/// The rows of the first `n` entries of `order`, one to a line, numbered from one.
pub open spec fn rows_text(stats: Seq<StatsView>, order: Seq<usize>, n: nat) -> Seq<char>
    decreases n,
{
    if n == 0 {
        Seq::empty()
    } else if n == 1 {
        row_text(1, stats[order[0] as int])
    } else {
        rows_text(stats, order, (n - 1) as nat) + "\n"@ + row_text(n, stats[order[n - 1] as int])
    }
}

/// The heading of the report.
pub open spec fn heading_text(
    from_text: Seq<char>,
    from_stamp: Seq<char>,
    to_text: Seq<char>,
    to_stamp: Seq<char>,
) -> Seq<char> {
    "## \u{1F3C6} Wordle Leaderboard\n > From "@ + from_text + " ("@ + from_stamp + ") to before "@ + to_text
        + " ("@ + to_stamp + ")\n "@
}

/// A report within the budget: one that is longer is cut at the budget and
/// marked as cut.
pub open spec fn bounded(s: Seq<char>) -> Seq<char> {
    if s.len() > 1950 {
        s.take(1950) + "\n... (truncated)"@
    } else {
        s
    }
}

/// The whole report for the entries in the given order.
pub open spec fn report_text(
    stats: Seq<StatsView>,
    order: Seq<usize>,
    from_text: Seq<char>,
    from_stamp: Seq<char>,
    to_text: Seq<char>,
    to_stamp: Seq<char>,
) -> Seq<char> {
    bounded(heading_text(from_text, from_stamp, to_text, to_stamp) + rows_text(stats, order, order.len()))
}

/// The moment `secs` seconds after the epoch, in UTC, written after a
/// `strftime` pattern; `None` for a moment outside the calendar or a pattern
/// that cannot be written.
pub uninterp spec fn stamp_text(secs: i64, pattern: Seq<char>) -> Option<Seq<char>>;

/// A report that was cut is as long as the budget and the mark together; no
/// report is longer.
pub proof fn lemma_bounded_length(s: Seq<char>)
    ensures
        bounded(s).len() <= 1950 + 16,
        s.len() > 1950 ==> bounded(s).len() == 1950 + 16,
        s.len() > 1950 ==> bounded(s).take(1950) == s.take(1950),
        s.len() <= 1950 ==> bounded(s) == s,
{
    reveal_strlit("\n... (truncated)");
    if s.len() > 1950 {
        assert(bounded(s).take(1950) =~= s.take(1950));
    }
}

/// Cuts a report that is longer than the budget and marks it as cut.
pub fn truncate_report(report: String) -> (r: String)
    ensures
        r@ == bounded(report@),
{
    let n: usize = report.as_str().unicode_len();
    if n > REPORT_BUDGET {
        let mut r = String::from_str(report.as_str().substring_char(0, REPORT_BUDGET));
        r.append("\n... (truncated)");
        assert(report@.subrange(0, 1950) =~= report@.take(1950));
        r
    } else {
        report
    }
}

/// The win rate in whole percent.
pub fn winrate_percent(s: &UserStats) -> (r: u128)
    ensures
        r == percent(s@),
{
    if s.games == 0 {
        0
    } else {
        (200 * (s.wins as u128) + s.games as u128) / (2 * (s.games as u128))
    }
}

fn push_average(out: &mut String, s: &UserStats)
    ensures
        final(out)@ == old(out)@ + average_text(s@),
{
    if s.wins == 0 {
        out.append("n/a");
        return ;
    }
    let wins: u128 = s.wins as u128;
    let m: u128 = if s.score_sum < 0 {
        (-(s.score_sum + 1)) as u128 + 1
    } else {
        s.score_sum as u128
    };
    assert(m == magnitude(s.score_sum as int));
    let hundredths: u128 = (m % wins) * 100 / wins;
    let ghost rem: int = (m % wins) as int;
    let ghost w: int = wins as int;
    assert(rem * 100 / w < 100) by (nonlinear_arith)
        requires
            0 <= rem < w,
    ;
    let ghost start = out@;
    if s.score_sum < 0 {
        out.append("-");
    } else {
        out.append("");
    }
    push_decimal(out, m / wins);
    out.append(".");
    push_decimal(out, hundredths / 10);
    push_decimal(out, hundredths % 10);
    proof {
        assert(hundredths / 10 % 10 == hundredths / 10);
        assert(decimal((hundredths / 10) as nat) + decimal((hundredths % 10) as nat) =~= seq![
            digit_char((hundredths / 10 % 10) as nat),
            digit_char((hundredths % 10) as nat),
        ]);
        assert(out@ =~= start + average_text(s@));
    }
}

fn push_row(out: &mut String, rank: usize, s: &UserStats)
    ensures
        final(out)@ == old(out)@ + row_text(rank as nat, s@),
{
    push_decimal(out, rank as u128);
    out.append(". ");
    let mention = s.user.mention();
    out.append(mention.as_str());
    out.append(" \u{2014} **");
    push_decimal(out, winrate_percent(s));
    out.append("%** (");
    push_decimal(out, s.wins as u128);
    out.append(" wins / ");
    push_decimal(out, s.games as u128);
    out.append(" games; ");
    push_average(out, s);
    out.append(" avg score)");
    assert(out@ =~= old(out)@ + row_text(rank as nat, s@));
}

/// The report for the entries in the given order, with the two dates of the
/// period already written out.
pub fn render_ranked(
    stats: &Vec<UserStats>,
    order: &Vec<usize>,
    from_text: &str,
    from_stamp: &str,
    to_text: &str,
    to_stamp: &str,
) -> (r: String)
    requires
        forall|k: int| 0 <= k < order.len() ==> (#[trigger] order[k]) < stats.len(),
    ensures
        r@ == report_text(stats_views(stats@), order@, from_text@, from_stamp@, to_text@, to_stamp@),
{
    let ghost sv = stats_views(stats@);
    let mut out = String::from_str("## \u{1F3C6} Wordle Leaderboard\n > From ");
    out.append(from_text);
    out.append(" (");
    out.append(from_stamp);
    out.append(") to before ");
    out.append(to_text);
    out.append(" (");
    out.append(to_stamp);
    out.append(")\n ");
    let ghost heading = heading_text(from_text@, from_stamp@, to_text@, to_stamp@);
    assert(out@ =~= heading + rows_text(sv, order@, 0));
    let mut k: usize = 0;
    while k < order.len()
        invariant
            k <= order.len(),
            sv == stats_views(stats@),
            forall|j: int| 0 <= j < order.len() ==> (#[trigger] order[j]) < stats.len(),
            out@ == heading + rows_text(sv, order@, k as nat),
        decreases order.len() - k,
    {
        let ghost before = out@;
        if k > 0 {
            out.append("\n");
        }
        push_row(&mut out, k + 1, &stats[order[k]]);
        proof {
            assert(sv[order[k as int] as int] == stats[order[k as int] as int]@);
            assert(out@ =~= heading + rows_text(sv, order@, (k + 1) as nat));
        }
        k = k + 1;
    }
    truncate_report(out)
}

/// Writes a moment after a pattern, through `chrono`: `DateTime::from_timestamp`
/// makes the UTC date and time of `secs`, and `DateTime::format` with
/// `DelayedFormat::write_to` writes it. The result is what [`stamp_text`] names:
/// it depends on the seconds and the pattern alone. `None` where `chrono` has no
/// date for the seconds or reports an error for the pattern.
#[verifier::external_body]
fn format_stamp(secs: i64, pattern: &str) -> (r: Option<String>)
    ensures
        match r {
            Some(s) => stamp_text(secs, pattern@) == Some(s@),
            None => stamp_text(secs, pattern@) is None,
        },
{
    let date = chrono::DateTime::from_timestamp(secs, 0)?;
    let mut out = String::new();
    match date.format(pattern).write_to(&mut out) {
        Ok(()) => Some(out),
        Err(_) => None,
    }
}

/// The report of a period, given the two dates as they were written and the
/// moments that they denote: the entries ranked by win rate, under a heading
/// with both dates. `None` where a moment lies outside the calendar.
pub fn render(
    stats: &Vec<UserStats>,
    from_text: &str,
    from: i64,
    to_text: &str,
    to: i64,
) -> (r: Option<String>)
    ensures
        match (stamp_text(from, "%Y/%m/%d %H:%M"@), stamp_text(to, "%Y/%m/%d %H:%M"@)) {
            (Some(a), Some(b)) => r is Some && r.unwrap()@ == report_text(
                stats_views(stats@),
                ranking(stats_views(stats@)),
                from_text@,
                a,
                to_text@,
                b,
            ),
            _ => r is None,
        },
{
    let from_stamp = match format_stamp(from, "%Y/%m/%d %H:%M") {
        Some(s) => s,
        None => { return None; },
    };
    let to_stamp = match format_stamp(to, "%Y/%m/%d %H:%M") {
        Some(s) => s,
        None => { return None; },
    };
    let order = rank_order(stats);
    let r = render_ranked(stats, &order, from_text, from_stamp.as_str(), to_text, to_stamp.as_str());
    Some(r)
}

} // verus!
