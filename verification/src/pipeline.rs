//! From the messages of a channel to the report of a period.

use vstd::prelude::*;
use vstd::string::*;
use crate::identity::{member_views, resolve_records, resolved_records, GuildMember, MemberView};
use crate::parse::{message_records, message_records_spec, record_views, RecordView, ScoreRecord};
use crate::rank::ranking;
use crate::report::{render, report_text, stamp_text};
use crate::stats::{aggregate, aggregate_spec};
use crate::window::{get_messages_from_dates, kept_from};

verus! {

/// One message of the channel, as far as the report reads it.
#[derive(Debug, Clone, PartialEq, Eq)]
pub struct ChatMessage {
    /// Whether a bot sent the message.
    pub is_bot: bool,
    /// The text, possibly of several lines.
    pub content: String,
    /// When the message was sent, in seconds since the epoch.
    pub timestamp: i64,
}

/// The mathematical value of a [`ChatMessage`].
pub struct MessageView {
    pub is_bot: bool,
    pub content: Seq<char>,
    pub timestamp: i64,
}

impl View for ChatMessage {
    type V = MessageView;

    open spec fn view(&self) -> MessageView {
        MessageView { is_bot: self.is_bot, content: self.content@, timestamp: self.timestamp }
    }
}

/// The values of a sequence of messages, in order.
pub open spec fn message_views(v: Seq<ChatMessage>) -> Seq<MessageView> {
    Seq::new(v.len(), |i: int| v[i]@)
}

/// The moments at which the messages were sent.
pub open spec fn timestamps_of(ms: Seq<MessageView>) -> Seq<i64> {
    Seq::new(ms.len(), |i: int| ms[i].timestamp)
}

/// The records of the first `n` of the messages at the positions `kept`.
pub open spec fn collected(ms: Seq<MessageView>, kept: Seq<usize>, n: nat) -> Seq<RecordView>
    decreases n,
{
    if n == 0 {
        Seq::empty()
    } else {
        let m = ms[kept[n - 1] as int];
        collected(ms, kept, (n - 1) as nat) + message_records_spec(m.is_bot, m.content)
    }
}

/// The records of the period: those of the messages that the filter keeps,
/// each player resolved against the members.
pub open spec fn period_records(
    ms: Seq<MessageView>,
    members: Seq<MemberView>,
    from: i64,
    to: i64,
) -> Seq<RecordView> {
    let kept = kept_from(timestamps_of(ms), from, to, 0);
    resolved_records(members, collected(ms, kept, kept.len()))
}

/// The report of the period, with the two dates written as `from_stamp` and
/// `to_stamp`: the statistics of the records of the period, in ranked order.
pub open spec fn period_report(
    ms: Seq<MessageView>,
    members: Seq<MemberView>,
    from_text: Seq<char>,
    from_stamp: Seq<char>,
    to_text: Seq<char>,
    to_stamp: Seq<char>,
    from: i64,
    to: i64,
) -> Seq<char> {
    let stats = aggregate_spec(period_records(ms, members, from, to));
    report_text(stats, ranking(stats), from_text, from_stamp, to_text, to_stamp)
}

/// The resolved records of the messages of the period.
pub fn collect_records(
    messages: &Vec<ChatMessage>,
    members: &[GuildMember],
    from: i64,
    to: i64,
) -> (out: Vec<ScoreRecord>)
    ensures
        record_views(out@) == period_records(message_views(messages@), member_views(members@), from, to),
{
    let ghost ms = message_views(messages@);
    let mut stamps: Vec<i64> = Vec::new();
    let mut i: usize = 0;
    while i < messages.len()
        invariant
            i <= messages.len(),
            ms == message_views(messages@),
            stamps@ == timestamps_of(ms).take(i as int),
        decreases messages.len() - i,
    {
        stamps.push(messages[i].timestamp);
        i = i + 1;
        assert(stamps@ =~= timestamps_of(ms).take(i as int));
    }
    assert(stamps@ =~= timestamps_of(ms));
    let kept = get_messages_from_dates(&stamps, from, to);
    proof {
        crate::window::lemma_kept_positions(stamps@, from, to, 0);
    }
    let mut raw: Vec<ScoreRecord> = Vec::new();
    let mut k: usize = 0;
    assert(record_views(raw@) =~= collected(ms, kept@, 0));
    while k < kept.len()
        invariant
            k <= kept.len(),
            ms == message_views(messages@),
            forall|j: int| 0 <= j < kept.len() ==> (#[trigger] kept[j]) < messages.len(),
            record_views(raw@) == collected(ms, kept@, k as nat),
        decreases kept.len() - k,
    {
        let m = &messages[kept[k]];
        let mut found = message_records(m.is_bot, m.content.as_str());
        let ghost before = record_views(raw@);
        let ghost added = record_views(found@);
        raw.append(&mut found);
        proof {
            assert(ms[kept[k as int] as int] == m@);
            assert(record_views(raw@) =~= before + added);
        }
        k = k + 1;
    }
    resolve_records(&raw, members)
}

/// The report of a period: the records of the messages that belong to it,
/// each player resolved, the statistics of each player, ranked and written
/// out. The messages must come newest first. `None` where a date of the
/// period lies outside the calendar.
pub fn leaderboard(
    messages: &Vec<ChatMessage>,
    members: &[GuildMember],
    from_text: &str,
    from: i64,
    to_text: &str,
    to: i64,
) -> (r: Option<String>)
    ensures
        match (stamp_text(from, "%Y/%m/%d %H:%M"@), stamp_text(to, "%Y/%m/%d %H:%M"@)) {
            (Some(a), Some(b)) => r is Some && r.unwrap()@ == period_report(
                message_views(messages@),
                member_views(members@),
                from_text@,
                a,
                to_text@,
                b,
                from,
                to,
            ),
            _ => r is None,
        },
{
    let records = collect_records(messages, members, from, to);
    let stats = aggregate(&records);
    render(&stats, from_text, from, to_text, to)
}

} // verus!
