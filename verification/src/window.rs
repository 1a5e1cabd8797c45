//! The period of a report and the messages that fall into it.
//!
//! Dates are seconds since the Unix epoch, in UTC. A message reports the
//! results of the day before it, so a message belongs to the period from
//! `from` to `to` when it was sent on or after `from` plus one day and before
//! `to` plus one day.

use vstd::prelude::*;

verus! {

/// Why two dates do not make a period.
#[derive(Debug, Clone, Copy, PartialEq, Eq, Structural)]
pub enum DateError {
    /// One of the two texts is no date.
    InvalidDateExpression,
    /// The start is not before the end.
    InvertedRange,
}

/// What the filter does with one message of the newest-first stream.
#[derive(Debug, Clone, Copy, PartialEq, Eq, Structural)]
pub enum Step {
    /// The message is newer than the period: pass over it.
    Skip,
    /// The message belongs to the period.
    Keep,
    /// The message is older than the period: ask for no more.
    Stop,
}

/// Seconds of one day.
pub const DAY: i64 = 86400;

/// The first moment whose messages belong to a period that starts at `from`.
pub open spec fn lower_bound(from: i64) -> int {
    from + 86400
}

/// The first moment whose messages no longer belong to a period that ends at `to`.
pub open spec fn upper_bound(to: i64) -> int {
    to + 86400
}

/// A message sent at `ts` belongs to the period from `from` to `to`.
pub open spec fn in_window(ts: i64, from: i64, to: i64) -> bool {
    lower_bound(from) <= ts && ts < upper_bound(to)
}

/// What the filter does with a message sent at `ts`.
pub open spec fn step_of(ts: i64, from: i64, to: i64) -> Step {
    if ts >= upper_bound(to) {
        Step::Skip
    } else if ts < lower_bound(from) {
        Step::Stop
    } else {
        Step::Keep
    }
}

/// What the filter does with one item of the stream: a message that could not
/// be retrieved, here `None`, is passed over like one that is too new.
pub open spec fn step_of_item(item: Option<i64>, from: i64, to: i64) -> Step {
    match item {
        Some(ts) => step_of(ts, from, to),
        None => Step::Skip,
    }
}

/// The timestamps are in order, the newest first.
pub open spec fn newest_first(ts: Seq<i64>) -> bool {
    forall|a: int, b: int| 0 <= a <= b < ts.len() ==> ts[a] >= ts[b]
}

/// The positions from `i` on that the filter keeps: it passes over messages
/// newer than the period and ends at the first one older than it.
pub open spec fn kept_from(ts: Seq<i64>, from: i64, to: i64, i: int) -> Seq<usize>
    decreases ts.len() - i,
{
    if i < 0 || i >= ts.len() {
        Seq::empty()
    } else {
        match step_of(ts[i], from, to) {
            Step::Stop => Seq::empty(),
            Step::Skip => kept_from(ts, from, to, i + 1),
            Step::Keep => seq![i as usize] + kept_from(ts, from, to, i + 1),
        }
    }
}

/// The period that two parsed dates make: both must be dates, and the first
/// must lie before the second.
pub open spec fn range_of(from: Option<i64>, to: Option<i64>) -> Result<(i64, i64), DateError> {
    match (from, to) {
        (Some(f), Some(t)) => if f >= t {
            Err(DateError::InvertedRange)
        } else {
            Ok((f, t))
        },
        _ => Err(DateError::InvalidDateExpression),
    }
}

/// The filter keeps positions of the stream, none before the one it starts at.
pub proof fn lemma_kept_positions(ts: Seq<i64>, from: i64, to: i64, i: int)
    requires
        0 <= i,
        ts.len() <= usize::MAX,
    ensures
        forall|m: int|
            0 <= m < kept_from(ts, from, to, i).len() ==> i <= (#[trigger] kept_from(ts, from, to, i)[m])
                < ts.len(),
    decreases ts.len() - i,
{
    if i < ts.len() {
        lemma_kept_positions(ts, from, to, i + 1);
        let rest = kept_from(ts, from, to, i + 1);
        let all = kept_from(ts, from, to, i);
        assert forall|m: int| 0 <= m < all.len() implies i <= (#[trigger] all[m]) < ts.len() by {
            if step_of(ts[i], from, to) == Step::Keep {
                if m > 0 {
                    assert(all[m] == rest[m - 1]);
                }
            } else if step_of(ts[i], from, to) == Step::Skip {
                assert(all[m] == rest[m]);
            }
        }
    }
}

/// On a newest-first stream the filter keeps, from position `i` on, exactly
/// the messages of the period.
pub proof fn lemma_kept_is_window(ts: Seq<i64>, from: i64, to: i64, i: int, k: int)
    requires
        newest_first(ts),
        0 <= i <= k < ts.len(),
        ts.len() <= usize::MAX,
    ensures
        kept_from(ts, from, to, i).contains(k as usize) <==> in_window(ts[k], from, to),
    decreases ts.len() - i,
{
    let rest = kept_from(ts, from, to, i + 1);
    lemma_kept_positions(ts, from, to, i + 1);
    if k > i {
        lemma_kept_is_window(ts, from, to, i + 1, k);
    }
    match step_of(ts[i], from, to) {
        Step::Stop => {},
        Step::Skip => {},
        Step::Keep => {
            let s = seq![i as usize] + rest;
            assert(s[0] == i as usize);
            if rest.contains(k as usize) {
                let m = choose|m: int| 0 <= m < rest.len() && rest[m] == k as usize;
                assert(s[m + 1] == k as usize);
            }
        },
    }
}

/// The period that two parsed dates make.
pub fn parse_dates(from: Option<i64>, to: Option<i64>) -> (r: Result<(i64, i64), DateError>)
    ensures
        r == range_of(from, to),
{
    match (from, to) {
        (Some(f), Some(t)) => if f >= t {
            Err(DateError::InvertedRange)
        } else {
            Ok((f, t))
        },
        _ => Err(DateError::InvalidDateExpression),
    }
}

/// What to do with a message sent at `ts`.
pub fn classify(ts: i64, from: i64, to: i64) -> (r: Step)
    ensures
        r == step_of(ts, from, to),
{
    let t: i128 = ts as i128;
    if t >= to as i128 + DAY as i128 {
        Step::Skip
    } else if t < from as i128 + DAY as i128 {
        Step::Stop
    } else {
        Step::Keep
    }
}

/// What to do with one item of the stream: the moment at which a message was
/// sent, or `None` for a message that could not be retrieved.
pub fn classify_item(item: Option<i64>, from: i64, to: i64) -> (r: Step)
    ensures
        r == step_of_item(item, from, to),
{
    match item {
        Some(ts) => classify(ts, from, to),
        None => Step::Skip,
    }
}

/// The positions of the messages that the filter keeps, given the moments at
/// which the messages of a stream were sent. The stream must give the newest
/// message first: the filter does not sort, and ends at the first message older
/// than the period.
pub fn get_messages_from_dates(timestamps: &Vec<i64>, from: i64, to: i64) -> (out: Vec<usize>)
    ensures
        out@ == kept_from(timestamps@, from, to, 0),
{
    let mut out: Vec<usize> = Vec::new();
    let mut i: usize = 0;
    assert(out@ + kept_from(timestamps@, from, to, 0) =~= kept_from(timestamps@, from, to, 0));
    while i < timestamps.len()
        invariant
            i <= timestamps.len(),
            out@ + kept_from(timestamps@, from, to, i as int) == kept_from(timestamps@, from, to, 0),
        decreases timestamps.len() - i,
    {
        let ghost rest = kept_from(timestamps@, from, to, i + 1);
        match classify(timestamps[i], from, to) {
            Step::Stop => {
                assert(out@ + Seq::<usize>::empty() =~= out@);
                return out;
            },
            Step::Skip => {},
            Step::Keep => {
                assert(out@.push(i) + rest =~= out@ + (seq![i] + rest));
                out.push(i);
            },
        }
        i = i + 1;
    }
    assert(out@ + Seq::<usize>::empty() =~= out@);
    out
}

} // verus!
