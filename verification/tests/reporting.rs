use wordle_stats_bot::identity::GuildMember;
use wordle_stats_bot::pipeline::{collect_records, leaderboard, ChatMessage};
use wordle_stats_bot::report::{render, render_ranked, truncate_report, winrate_percent, REPORT_BUDGET};
use wordle_stats_bot::stats::UserStats;
use wordle_stats_bot::text::{decimal_text, push_decimal};
use wordle_stats_bot::user::User;
use wordle_stats_bot::window::{
    classify, classify_item, get_messages_from_dates, parse_dates, DateError, Step, DAY,
};
use wordle_stats_bot::Data;

const MARKER: &str = "\n... (truncated)";

fn name(s: &str) -> User {
    User::Text(s.to_string())
}

fn stats(user: User, games: usize, wins: usize, score_sum: i128) -> UserStats {
    UserStats { user, games, wins, score_sum }
}

fn message(is_bot: bool, content: &str, timestamp: i64) -> ChatMessage {
    ChatMessage { is_bot, content: content.to_string(), timestamp }
}

fn english(text: &str, now: i64) -> Option<i64> {
    let now = chrono::DateTime::from_timestamp(now, 0).unwrap();
    chrono_english::parse_date_string(text, now, chrono_english::Dialect::Uk).ok().map(|d| d.timestamp())
}

#[test]
fn today_to_yesterday_is_inverted() {
    let now = 1_700_000_000;
    let got = parse_dates(english("today", now), english("yesterday", now));
    assert_eq!(got, Err(DateError::InvertedRange));
}

#[test]
fn yesterday_to_today_is_a_range() {
    let now = 1_700_000_000;
    let got = parse_dates(english("yesterday", now), english("today", now));
    assert_eq!(got, Ok((now - DAY, now)));
}

#[test]
fn equal_dates_are_inverted() {
    assert_eq!(parse_dates(Some(10), Some(10)), Err(DateError::InvertedRange));
    assert_eq!(parse_dates(Some(9), Some(10)), Ok((9, 10)));
}

#[test]
fn unparsed_date_is_invalid() {
    let now = 1_700_000_000;
    assert_eq!(english("no date at all", now), None);
    assert_eq!(parse_dates(english("no date at all", now), Some(now)), Err(DateError::InvalidDateExpression));
    assert_eq!(parse_dates(Some(now), None), Err(DateError::InvalidDateExpression));
    assert_eq!(parse_dates(None, None), Err(DateError::InvalidDateExpression));
}

#[test]
fn window_keeps_day_four_only() {
    let got = get_messages_from_dates(&vec![5 * DAY, 4 * DAY, DAY], 2 * DAY, 4 * DAY);
    assert_eq!(got, vec![1]);
}

#[test]
fn window_bounds_are_offset_by_one_day() {
    let from = 2 * DAY;
    let to = 4 * DAY;
    assert_eq!(classify(5 * DAY, from, to), Step::Skip);
    assert_eq!(classify(5 * DAY - 1, from, to), Step::Keep);
    assert_eq!(classify(3 * DAY, from, to), Step::Keep);
    assert_eq!(classify(3 * DAY - 1, from, to), Step::Stop);
    assert_eq!(classify(i64::MAX, i64::MAX, i64::MAX), Step::Stop);
    assert_eq!(classify(i64::MIN, i64::MIN, i64::MIN), Step::Stop);
}

#[test]
fn failed_retrieval_is_passed_over() {
    assert_eq!(classify_item(None, 2 * DAY, 4 * DAY), Step::Skip);
    assert_eq!(classify_item(Some(3 * DAY), 2 * DAY, 4 * DAY), Step::Keep);
    assert_eq!(classify_item(Some(DAY), 2 * DAY, 4 * DAY), Step::Stop);
    assert_eq!(classify_item(Some(9 * DAY), 2 * DAY, 4 * DAY), Step::Skip);
}

#[test]
fn window_stops_at_the_first_older_message() {
    let from = 2 * DAY;
    let to = 4 * DAY;
    let got = get_messages_from_dates(&vec![6 * DAY, 4 * DAY + 5, 3 * DAY, DAY, 4 * DAY], from, to);
    assert_eq!(got, vec![1, 2]);
    assert!(get_messages_from_dates(&Vec::new(), from, to).is_empty());
}

#[test]
fn decimal_notation() {
    assert_eq!(decimal_text(0), "0");
    assert_eq!(decimal_text(7), "7");
    assert_eq!(decimal_text(10), "10");
    assert_eq!(decimal_text(1950), "1950");
    assert_eq!(decimal_text(u128::MAX), u128::MAX.to_string());
    let mut s = "n=".to_string();
    push_decimal(&mut s, 42);
    assert_eq!(s, "n=42");
}

#[test]
fn percent_is_rounded_to_whole() {
    assert_eq!(winrate_percent(&stats(name("a"), 3, 2, 0)), 67);
    assert_eq!(winrate_percent(&stats(name("a"), 3, 1, 0)), 33);
    assert_eq!(winrate_percent(&stats(name("a"), 8, 1, 0)), 13);
    assert_eq!(winrate_percent(&stats(name("a"), 1, 1, 0)), 100);
    assert_eq!(winrate_percent(&stats(name("a"), 4, 0, 0)), 0);
    assert_eq!(winrate_percent(&stats(name("a"), 0, 0, 0)), 0);
}

#[test]
fn short_report_is_left_whole() {
    let s = "x".repeat(REPORT_BUDGET);
    assert_eq!(truncate_report(s.clone()), s);
    assert_eq!(truncate_report(String::new()), "");
}

#[test]
fn long_report_is_cut_to_the_budget() {
    let s = "ab".repeat(REPORT_BUDGET);
    let got = truncate_report(s.clone());
    assert_eq!(got.chars().count(), REPORT_BUDGET + MARKER.chars().count());
    assert_eq!(got, format!("{}{}", &s[..REPORT_BUDGET], MARKER));
    let one_more = "x".repeat(REPORT_BUDGET + 1);
    assert_eq!(truncate_report(one_more), format!("{}{}", "x".repeat(REPORT_BUDGET), MARKER));
}

#[test]
fn long_report_is_cut_by_characters() {
    let s = "\u{2014}".repeat(REPORT_BUDGET + 10);
    let got = truncate_report(s);
    assert_eq!(got, format!("{}{}", "\u{2014}".repeat(REPORT_BUDGET), MARKER));
}

#[test]
fn rows_in_the_given_order() {
    let all = vec![stats(name("Bob"), 3, 2, 8), stats(User::Id(9), 2, 0, 0), stats(name("Al"), 3, 3, -10)];
    let got = render_ranked(&all, &vec![2, 0, 1], "sunday", "A", "today", "B");
    let want = "## \u{1F3C6} Wordle Leaderboard\n > From sunday (A) to before today (B)\n \
1. @Al \u{2014} **100%** (3 wins / 3 games; -3.33 avg score)\n\
2. @Bob \u{2014} **67%** (2 wins / 3 games; 4.00 avg score)\n\
3. <@9> \u{2014} **0%** (0 wins / 2 games; n/a avg score)";
    assert_eq!(got, want);
}

#[test]
fn report_without_rows() {
    let got = render_ranked(&Vec::new(), &Vec::new(), "a", "b", "c", "d");
    assert_eq!(got, "## \u{1F3C6} Wordle Leaderboard\n > From a (b) to before c (d)\n ");
}

#[test]
fn report_writes_the_dates_of_the_period() {
    let all = vec![stats(name("Bob"), 3, 2, 7)];
    let got = render(&all, "sunday", 0, "today", 1_700_000_000).unwrap();
    let want = "## \u{1F3C6} Wordle Leaderboard\n > From sunday (1970/01/01 00:00) to before today (2023/11/14 22:13)\n \
1. @Bob \u{2014} **67%** (2 wins / 3 games; 3.50 avg score)";
    assert_eq!(got, want);
}

#[test]
fn report_of_a_date_outside_the_calendar() {
    assert_eq!(render(&Vec::new(), "a", i64::MAX, "b", 0), None);
    assert_eq!(render(&Vec::new(), "a", 0, "b", i64::MIN), None);
}

#[test]
fn long_rendered_report_is_cut() {
    let mut all = Vec::new();
    let mut i: u64 = 0;
    while i < 100 {
        all.push(stats(User::Id(1_000_000 + i), 2, 1, 3));
        i += 1;
    }
    let got = render(&all, "sunday", 0, "today", DAY).unwrap();
    assert_eq!(got.chars().count(), REPORT_BUDGET + MARKER.chars().count());
    assert!(got.ends_with(MARKER));
    assert!(got.starts_with("## \u{1F3C6} Wordle Leaderboard\n > From sunday (1970/01/01 00:00)"));
}

#[test]
fn records_of_the_period_are_collected_and_resolved() {
    let members = vec![GuildMember { id: 5, display_name: "Bob".to_string(), nickname: None }];
    let messages = vec![
        message(true, "1/6: Eve", 5 * DAY),
        message(true, "3/6: Bob\nX/6: Zara", 4 * DAY),
        message(false, "2/6: Mallory", 4 * DAY),
        message(true, "6/6: Old", DAY),
        message(true, "6/6: Late", 4 * DAY),
    ];
    let got = collect_records(&messages, &members, 2 * DAY, 4 * DAY);
    assert_eq!(got.len(), 2);
    assert_eq!(got[0].user, User::Id(5));
    assert_eq!(got[0].score, Some(3));
    assert_eq!(got[1].user, name("Zara"));
    assert_eq!(got[1].score, None);
}

#[test]
fn leaderboard_from_messages_to_report() {
    let members = vec![GuildMember { id: 5, display_name: "Bob".to_string(), nickname: None }];
    let messages = vec![
        message(true, "1/6: Eve", 5 * DAY),
        message(true, "Results\n3/6: <@123>, Bob\nX/6: Bob\n5/6: Zara", 4 * DAY),
        message(true, "6/6: Old", DAY),
    ];
    let got = leaderboard(&messages, &members, "sunday", 2 * DAY, "today", 4 * DAY).unwrap();
    let want = "## \u{1F3C6} Wordle Leaderboard\n > From sunday (1970/01/03 00:00) to before today (1970/01/05 00:00)\n \
1. <@123> \u{2014} **100%** (1 wins / 1 games; 3.00 avg score)\n\
2. @Zara \u{2014} **100%** (1 wins / 1 games; 5.00 avg score)\n\
3. <@5> \u{2014} **50%** (1 wins / 2 games; 3.00 avg score)";
    assert_eq!(got, want);
}

#[test]
fn command_data_is_empty() {
    let _data = Data {};
    assert_eq!(std::mem::size_of::<Data>(), 0);
}
