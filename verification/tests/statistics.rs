use wordle_stats_bot::identity::{determine_user, resolve_records, GuildMember};
use wordle_stats_bot::parse::ScoreRecord;
use wordle_stats_bot::rank::{has_higher_rate, rank_order};
use wordle_stats_bot::stats::{aggregate, UserStats};
use wordle_stats_bot::user::User;

fn rec(user: User, score: Option<i32>) -> ScoreRecord {
    ScoreRecord { user, score }
}

fn name(s: &str) -> User {
    User::Text(s.to_string())
}

fn member(id: u64, display_name: &str, nickname: Option<&str>) -> GuildMember {
    GuildMember { id, display_name: display_name.to_string(), nickname: nickname.map(|n| n.to_string()) }
}

fn stats(user: User, games: usize, wins: usize, score_sum: i128) -> UserStats {
    UserStats { user, games, wins, score_sum }
}

#[test]
fn member_is_found_by_display_name() {
    let members = vec![member(5, "Bob", None)];
    assert_eq!(determine_user(&members, "Bob"), Some(5));
    assert_eq!(determine_user(&members, "Zara"), None);
    assert_eq!(determine_user(&members, "bob"), None);
    assert_eq!(determine_user(&[], "Bob"), None);
}

#[test]
fn member_is_found_by_nickname() {
    let members = vec![member(1, "alice", Some("Al")), member(2, "Al", None)];
    assert_eq!(determine_user(&members, "Al"), Some(1));
    assert_eq!(determine_user(&members, "alice"), Some(1));
}

#[test]
fn first_of_several_matches_wins() {
    let members = vec![member(7, "x", None), member(8, "Bob", None), member(9, "Bob", None)];
    assert_eq!(determine_user(&members, "Bob"), Some(8));
}

#[test]
fn unresolved_name_is_kept() {
    let members = vec![member(5, "Bob", None)];
    let records = vec![rec(name("Bob"), Some(3)), rec(name("Zara"), None), rec(User::Id(77), Some(1))];
    let got = resolve_records(&records, &members);
    assert_eq!(got, vec![rec(User::Id(5), Some(3)), rec(name("Zara"), None), rec(User::Id(77), Some(1))]);
}

#[test]
fn aggregation_of_one_user() {
    let records = vec![rec(User::Id(5), Some(3)), rec(User::Id(5), Some(5)), rec(User::Id(5), None)];
    let got = aggregate(&records);
    assert_eq!(got, vec![stats(User::Id(5), 3, 2, 8)]);
    let winrate = got[0].wins as f64 / got[0].games as f64;
    let avg = got[0].score_sum as f64 / got[0].wins as f64;
    assert_eq!(winrate, 2.0 / 3.0);
    assert_eq!(avg, 4.0);
}

#[test]
fn aggregation_merges_after_resolution() {
    let members = vec![member(5, "Bob", Some("Bobby"))];
    let records = vec![rec(name("Bob"), Some(3)), rec(User::Id(5), Some(5)), rec(name("Bobby"), None)];
    let got = aggregate(&resolve_records(&records, &members));
    assert_eq!(got, vec![stats(User::Id(5), 3, 2, 8)]);
}

#[test]
fn aggregation_keeps_variants_apart() {
    let records = vec![rec(name("5"), Some(2)), rec(User::Id(5), Some(4)), rec(name("5"), None)];
    let got = aggregate(&records);
    assert_eq!(got, vec![stats(name("5"), 2, 1, 2), stats(User::Id(5), 1, 1, 4)]);
}

#[test]
fn aggregation_is_repeatable() {
    let records = vec![
        rec(name("a"), Some(3)),
        rec(name("b"), None),
        rec(name("a"), None),
        rec(User::Id(1), Some(6)),
        rec(name("b"), Some(2)),
    ];
    let first = aggregate(&records);
    let second = aggregate(&records);
    assert_eq!(first, second);
    assert_eq!(first, vec![stats(name("a"), 2, 1, 3), stats(name("b"), 2, 1, 2), stats(User::Id(1), 1, 1, 6)]);
}

#[test]
fn aggregation_of_a_user_does_not_depend_on_order() {
    let a = vec![rec(name("a"), Some(3)), rec(name("b"), None)];
    let b = vec![rec(name("a"), None), rec(name("b"), Some(2))];
    let ab: Vec<ScoreRecord> = a.iter().chain(b.iter()).cloned().collect();
    let ba: Vec<ScoreRecord> = b.iter().chain(a.iter()).cloned().collect();
    let mut x = aggregate(&ab);
    let mut y = aggregate(&ba);
    x.sort_by_key(|s| s.user.mention());
    y.sort_by_key(|s| s.user.mention());
    assert_eq!(x, y);
}

#[test]
fn aggregation_of_nothing() {
    assert!(aggregate(&Vec::new()).is_empty());
}

#[test]
fn user_without_numeric_score() {
    let got = aggregate(&vec![rec(name("a"), None)]);
    assert_eq!(got, vec![stats(name("a"), 1, 0, 0)]);
}

#[test]
fn higher_rate_compares_fractions() {
    let a = stats(name("a"), 3, 2, 0);
    let b = stats(name("b"), 5, 3, 0);
    let c = stats(name("c"), 6, 4, 0);
    let none = stats(name("n"), 0, 0, 0);
    assert!(has_higher_rate(&a, &b));
    assert!(!has_higher_rate(&b, &a));
    assert!(!has_higher_rate(&a, &c));
    assert!(!has_higher_rate(&c, &a));
    assert!(has_higher_rate(&b, &none));
    assert!(!has_higher_rate(&none, &none));
    let big = stats(name("x"), usize::MAX, usize::MAX, 0);
    let nearly = stats(name("y"), usize::MAX, usize::MAX - 1, 0);
    assert!(has_higher_rate(&big, &nearly));
}

#[test]
fn ranking_is_by_rate_and_stable() {
    let all = vec![
        stats(name("a"), 2, 1, 0),
        stats(name("b"), 1, 1, 0),
        stats(name("c"), 4, 2, 0),
        stats(name("d"), 3, 0, 0),
        stats(name("e"), 2, 2, 0),
    ];
    assert_eq!(rank_order(&all), vec![1, 4, 0, 2, 3]);
    assert!(rank_order(&Vec::new()).is_empty());
}
