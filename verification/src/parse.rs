//! The line grammar: a result marker followed by the players it applies to.

use vstd::prelude::*;
use vstd::string::*;
use crate::user::{User, UserView};

verus! {

/// One parsed result: a player and the number of attempts, or `None` for a failure.
#[derive(Debug, Clone, PartialEq, Eq)]
pub struct ScoreRecord {
    pub user: User,
    pub score: Option<i32>,
}

/// The mathematical value of a [`ScoreRecord`].
pub struct RecordView {
    pub user: UserView,
    pub score: Option<i32>,
}

impl View for ScoreRecord {
    type V = RecordView;

    open spec fn view(&self) -> RecordView {
        RecordView { user: self.user@, score: self.score }
    }
}

/// The values of a sequence of records, in order.
pub open spec fn record_views(v: Seq<ScoreRecord>) -> Seq<RecordView> {
    Seq::new(v.len(), |i: int| v[i]@)
}

/// Unicode white space.
pub open spec fn is_whitespace(c: char) -> bool {
    let n = c as u32;
    ||| (0x09 <= n && n <= 0x0D)
    ||| n == 0x20
    ||| n == 0x85
    ||| n == 0xA0
    ||| n == 0x1680
    ||| (0x2000 <= n && n <= 0x200A)
    ||| n == 0x2028
    ||| n == 0x2029
    ||| n == 0x202F
    ||| n == 0x205F
    ||| n == 0x3000
}

/// Characters that end a token of the players block.
pub open spec fn is_separator(c: char) -> bool {
    c == ',' || is_whitespace(c)
}

/// Decoration that is stripped from both ends of a token.
pub open spec fn is_trimmed(c: char) -> bool {
    c == '<' || c == '>' || c == '@' || c == '!' || c == ',' || c == '*' || c == '"'
}

/// A result character: `1` to `6`, or `X` for a failure.
pub open spec fn is_value_char(c: char) -> bool {
    c == 'X' || ('1' <= c && c <= '6')
}

/// The result that a result character stands for.
pub open spec fn score_of(c: char) -> Option<i32> {
    if c == 'X' {
        None
    } else {
        Some((c as u32 - '0' as u32) as i32)
    }
}

/// A result marker starts at `i`: a result character, then `/6: `.
pub open spec fn marker_at(s: Seq<char>, i: int) -> bool {
    &&& 0 <= i
    &&& i + 5 <= s.len()
    &&& is_value_char(s[i])
    &&& s[i + 1] == '/'
    &&& s[i + 2] == '6'
    &&& s[i + 3] == ':'
    &&& s[i + 4] == ' '
}

/// `i` is where the leftmost result marker of `s` starts.
pub open spec fn is_first_marker(s: Seq<char>, i: int) -> bool {
    marker_at(s, i) && forall|j: int| 0 <= j < i ==> !marker_at(s, j)
}

/// Some result marker occurs in `s`.
pub open spec fn has_marker(s: Seq<char>) -> bool {
    exists|i: int| marker_at(s, i)
}

/// Where the leftmost result marker of `s` starts.
pub open spec fn first_marker(s: Seq<char>) -> int {
    choose|i: int| is_first_marker(s, i)
}

/// The delimiter `/6:` occurs somewhere in `s`.
pub open spec fn has_delimiter(s: Seq<char>) -> bool {
    exists|i: int| 0 <= i && i + 3 <= s.len() && #[trigger] s[i] == '/' && s[i + 1] == '6' && s[i + 2] == ':'
}

/// The length of the longest prefix of `s` that holds no separator.
pub open spec fn word_len(s: Seq<char>) -> nat
    decreases s.len(),
{
    if s.len() == 0 || is_separator(s[0]) {
        0
    } else {
        1 + word_len(s.skip(1))
    }
}

/// A token without the decoration at its start.
pub open spec fn trim_front(t: Seq<char>) -> Seq<char>
    decreases t.len(),
{
    if t.len() > 0 && is_trimmed(t[0]) {
        trim_front(t.skip(1))
    } else {
        t
    }
}

/// A token without the decoration at its end.
pub open spec fn trim_back(t: Seq<char>) -> Seq<char>
    decreases t.len(),
{
    if t.len() > 0 && is_trimmed(t.last()) {
        trim_back(t.drop_last())
    } else {
        t
    }
}

/// A token without the decoration at its ends.
pub open spec fn trim(t: Seq<char>) -> Seq<char> {
    trim_back(trim_front(t))
}

/// A decimal digit.
pub open spec fn is_digit(c: char) -> bool {
    '0' <= c && c <= '9'
}

/// All characters of `s` are decimal digits.
pub open spec fn all_digits(s: Seq<char>) -> bool {
    forall|i: int| 0 <= i < s.len() ==> is_digit(#[trigger] s[i])
}

/// The number that a sequence of decimal digits writes.
pub open spec fn digits_value(s: Seq<char>) -> nat
    decreases s.len(),
{
    if s.len() == 0 {
        0
    } else {
        digits_value(s.drop_last()) * 10 + (s.last() as u32 - '0' as u32) as nat
    }
}

/// The identifier that a token writes: decimal digits, a `+` allowed before them,
/// whose value is positive and fits in 64 bits.
pub open spec fn parse_id(t: Seq<char>) -> Option<u64> {
    let d = if t.len() > 0 && t[0] == '+' { t.skip(1) } else { t };
    if d.len() > 0 && all_digits(d) && 0 < digits_value(d) && digits_value(d) <= u64::MAX {
        Some(digits_value(d) as u64)
    } else {
        None
    }
}

/// The player that a cleaned token names.
pub open spec fn user_of(t: Seq<char>) -> UserView {
    match parse_id(t) {
        Some(id) => UserView::Id(id),
        None => UserView::Text(t),
    }
}

/// The players of a players block: one for each maximal run without a separator.
pub open spec fn users_of(block: Seq<char>) -> Seq<UserView>
    decreases block.len(),
    via users_of_decreases
{
    if block.len() == 0 {
        Seq::empty()
    } else if is_separator(block[0]) {
        users_of(block.skip(1))
    } else {
        let n = word_len(block) as int;
        seq![user_of(trim(block.take(n)))] + users_of(block.skip(n))
    }
}

#[via_fn]
proof fn users_of_decreases(block: Seq<char>) {
    lemma_word_len_bound(block);
}

/// One record with the given result for each player.
pub open spec fn records_for(score: Option<i32>, users: Seq<UserView>) -> Seq<RecordView> {
    Seq::new(users.len(), |k: int| RecordView { user: users[k], score })
}

/// The records of one line: none without a result marker, else one for each
/// player named after the leftmost marker.
pub open spec fn line_records(s: Seq<char>) -> Seq<RecordView> {
    if has_marker(s) {
        let i = first_marker(s);
        records_for(score_of(s[i]), users_of(s.skip(i + 5)))
    } else {
        Seq::empty()
    }
}

/// The number of characters before the first line feed of `s`.
pub open spec fn line_len(s: Seq<char>) -> nat
    decreases s.len(),
{
    if s.len() == 0 || s[0] == '\n' {
        0
    } else {
        1 + line_len(s.skip(1))
    }
}

/// The records of a text of several lines, line by line.
pub open spec fn text_records(s: Seq<char>) -> Seq<RecordView>
    decreases s.len(),
{
    let n = line_len(s);
    if n < s.len() {
        line_records(s.take(n as int)) + text_records(s.skip(n as int + 1))
    } else {
        line_records(s)
    }
}

/// A line without the delimiter `/6:` holds no record.
pub proof fn lemma_no_delimiter_no_records(s: Seq<char>)
    requires
        !has_delimiter(s),
    ensures
        line_records(s).len() == 0,
{
    if has_marker(s) {
        let i = choose|i: int| marker_at(s, i);
        assert(s[i + 1] == '/');
    }
}

/// Every record of a line carries the same result.
pub proof fn lemma_line_shares_score(s: Seq<char>, a: int, b: int)
    requires
        0 <= a < line_records(s).len(),
        0 <= b < line_records(s).len(),
    ensures
        line_records(s)[a].score == line_records(s)[b].score,
{
}

proof fn lemma_word_len_bound(s: Seq<char>)
    ensures
        word_len(s) <= s.len(),
    decreases s.len(),
{
    if s.len() > 0 && !is_separator(s[0]) {
        lemma_word_len_bound(s.skip(1));
    }
}

proof fn lemma_first_marker(s: Seq<char>, i: int)
    requires
        is_first_marker(s, i),
    ensures
        has_marker(s),
        first_marker(s) == i,
{
    let k = first_marker(s);
    assert(is_first_marker(s, k));
    if k < i {
        assert(!marker_at(s, k));
    }
    if i < k {
        assert(!marker_at(s, i));
    }
}

/// Whether a character is Unicode white space.
pub fn whitespace(c: char) -> (r: bool)
    ensures
        r == is_whitespace(c),
{
    let n: u32 = c as u32;
    (0x09 <= n && n <= 0x0D) || n == 0x20 || n == 0x85 || n == 0xA0 || n == 0x1680 || (0x2000 <= n
        && n <= 0x200A) || n == 0x2028 || n == 0x2029 || n == 0x202F || n == 0x205F || n == 0x3000
}

fn separator(c: char) -> (r: bool)
    ensures
        r == is_separator(c),
{
    c == ',' || whitespace(c)
}

fn trimmed(c: char) -> (r: bool)
    ensures
        r == is_trimmed(c),
{
    c == '<' || c == '>' || c == '@' || c == '!' || c == ',' || c == '*' || c == '"'
}

/// The characters of a text, one by one.
pub fn chars_of(text: &str) -> (v: Vec<char>)
    ensures
        v@ == text@,
{
    let mut v: Vec<char> = Vec::new();
    for c in it: text.chars()
        invariant
            it.seq() == text@,
            v@ == text@.take(it.index() as int),
    {
        v.push(c);
        assert(v@ =~= text@.take(it.index() + 1));
    }
    assert(text@.take(text@.len() as int) =~= text@);
    v
}

proof fn lemma_digits_prefix(s: Seq<char>, k: int)
    requires
        0 <= k <= s.len(),
    ensures
        digits_value(s.take(k)) <= digits_value(s),
    decreases s.len() - k,
{
    if k < s.len() {
        lemma_digits_prefix(s, k + 1);
        assert(s.take(k + 1).drop_last() =~= s.take(k));
    } else {
        assert(s.take(k) =~= s);
    }
}

/// Reads the identifier that the characters from `lo` up to `hi` write, if they write one.
pub fn parse_user_id(chars: &Vec<char>, lo: usize, hi: usize) -> (r: Option<u64>)
    requires
        lo <= hi <= chars.len(),
    ensures
        r == parse_id(chars@.subrange(lo as int, hi as int)),
{
    let ghost t = chars@.subrange(lo as int, hi as int);
    let start: usize = if lo < hi && chars[lo] == '+' { lo + 1 } else { lo };
    let ghost d = chars@.subrange(start as int, hi as int);
    assert(d =~= if t.len() > 0 && t[0] == '+' { t.skip(1) } else { t });
    if start == hi {
        return None;
    }
    let mut acc: u64 = 0;
    let mut i: usize = start;
    while i < hi
        invariant
            start <= i <= hi <= chars.len(),
            t == chars@.subrange(lo as int, hi as int),
            d == chars@.subrange(start as int, hi as int),
            d == (if t.len() > 0 && t[0] == '+' { t.skip(1) } else { t }),
            d.len() > 0,
            all_digits(d.take(i - start)),
            acc == digits_value(d.take(i - start)),
        decreases hi - i,
    {
        let c = chars[i];
        let ghost next = d.take(i - start + 1);
        assert(next.drop_last() =~= d.take(i - start));
        assert(next.last() == c);
        if !('0' <= c && c <= '9') {
            assert(!is_digit(d[i - start]));
            return None;
        }
        let digit: u64 = (c as u32 - '0' as u32) as u64;
        proof {
            lemma_digits_prefix(d, i - start + 1);
        }
        if acc > (u64::MAX - digit) / 10 {
            return None;
        }
        acc = acc * 10 + digit;
        i = i + 1;
    }
    assert(d.take(i - start) =~= d);
    if acc == 0 {
        None
    } else {
        Some(acc)
    }
}

proof fn lemma_word_len_is(s: Seq<char>, n: int)
    requires
        0 <= n <= s.len(),
        forall|k: int| 0 <= k < n ==> !is_separator(#[trigger] s[k]),
        n == s.len() || is_separator(s[n]),
    ensures
        word_len(s) == n,
    decreases n,
{
    if n > 0 {
        lemma_word_len_is(s.skip(1), n - 1);
    }
}

proof fn lemma_line_len_is(s: Seq<char>, n: int)
    requires
        0 <= n <= s.len(),
        forall|k: int| 0 <= k < n ==> #[trigger] s[k] != '\n',
        n == s.len() || s[n] == '\n',
    ensures
        line_len(s) == n,
    decreases n,
{
    if n > 0 {
        lemma_line_len_is(s.skip(1), n - 1);
    }
}

/// Appends to `out` the player that the token from `lo` up to `hi` names.
fn push_token(text: &str, chars: &Vec<char>, lo: usize, hi: usize, score: Option<i32>, out: &mut Vec<ScoreRecord>)
    requires
        text@ == chars@,
        lo <= hi <= chars.len(),
    ensures
        record_views(final(out)@) == record_views(old(out)@).push(
            RecordView { user: user_of(trim(chars@.subrange(lo as int, hi as int))), score },
        ),
{
    let ghost t = chars@.subrange(lo as int, hi as int);
    let mut a: usize = lo;
    while a < hi && trimmed(chars[a])
        invariant
            lo <= a <= hi <= chars.len(),
            trim_front(t) == trim_front(chars@.subrange(a as int, hi as int)),
        decreases hi - a,
    {
        assert(chars@.subrange(a as int, hi as int).skip(1) =~= chars@.subrange(a + 1, hi as int));
        a = a + 1;
    }
    let ghost f = chars@.subrange(a as int, hi as int);
    assert(trim_front(t) == f);
    let mut b: usize = hi;
    while a < b && trimmed(chars[b - 1])
        invariant
            a <= b <= hi <= chars.len(),
            trim_back(f) == trim_back(chars@.subrange(a as int, b as int)),
        decreases b - a,
    {
        assert(chars@.subrange(a as int, b as int).drop_last() =~= chars@.subrange(a as int, b - 1));
        b = b - 1;
    }
    let ghost cleaned = chars@.subrange(a as int, b as int);
    assert(trim(t) == cleaned);
    let user = match parse_user_id(chars, a, b) {
        Some(id) => User::Id(id),
        None => User::Text(String::from_str(text.substring_char(a, b))),
    };
    assert(user@ == user_of(cleaned));
    let rec = ScoreRecord { user, score };
    out.push(rec);
    assert(record_views(out@) =~= record_views(old(out)@).push(rec@));
}

/// Appends to `out` the players of the block from `lo` up to `hi`, each with `score`.
fn scan_users(text: &str, chars: &Vec<char>, lo: usize, hi: usize, score: Option<i32>, out: &mut Vec<ScoreRecord>)
    requires
        text@ == chars@,
        lo <= hi <= chars.len(),
    ensures
        record_views(final(out)@) == record_views(old(out)@) + records_for(
            score,
            users_of(chars@.subrange(lo as int, hi as int)),
        ),
{
    let ghost block = chars@.subrange(lo as int, hi as int);
    let ghost mut done: Seq<UserView> = Seq::empty();
    let mut p: usize = lo;
    assert(record_views(out@) =~= record_views(old(out)@) + records_for(score, done));
    while p < hi
        invariant
            text@ == chars@,
            lo <= p <= hi <= chars.len(),
            block == chars@.subrange(lo as int, hi as int),
            done + users_of(chars@.subrange(p as int, hi as int)) == users_of(block),
            record_views(out@) == record_views(old(out)@) + records_for(score, done),
        decreases hi - p,
    {
        let ghost rest = chars@.subrange(p as int, hi as int);
        if separator(chars[p]) {
            assert(rest.skip(1) =~= chars@.subrange(p + 1, hi as int));
            p = p + 1;
        } else {
            let mut q: usize = p + 1;
            while q < hi && !separator(chars[q])
                invariant
                    p < q <= hi <= chars.len(),
                    forall|k: int| p <= k < q ==> !is_separator(#[trigger] chars@[k]),
                decreases hi - q,
            {
                q = q + 1;
            }
            proof {
                lemma_word_len_is(rest, q - p);
                assert(rest.take(q - p) =~= chars@.subrange(p as int, q as int));
                assert(rest.skip(q - p) =~= chars@.subrange(q as int, hi as int));
            }
            let ghost u = user_of(trim(chars@.subrange(p as int, q as int)));
            assert(users_of(rest) == seq![u] + users_of(chars@.subrange(q as int, hi as int)));
            let ghost before = record_views(out@);
            push_token(text, chars, p, q, score, out);
            proof {
                assert(done.push(u) + users_of(chars@.subrange(q as int, hi as int)) =~= done + users_of(rest));
                assert(before.push(RecordView { user: u, score }) =~= record_views(old(out)@) + records_for(
                    score,
                    done.push(u),
                ));
                done = done.push(u);
            }
            p = q;
        }
    }
    assert(chars@.subrange(p as int, hi as int) =~= Seq::<char>::empty());
    assert(done + Seq::<UserView>::empty() =~= done);
}

fn marker_here(chars: &Vec<char>, lo: usize, hi: usize, i: usize) -> (r: bool)
    requires
        lo <= i,
        i + 5 <= hi <= chars.len(),
    ensures
        r == marker_at(chars@.subrange(lo as int, hi as int), i - lo),
{
    let c = chars[i];
    (c == 'X' || ('1' <= c && c <= '6')) && chars[i + 1] == '/' && chars[i + 2] == '6' && chars[i + 3]
        == ':' && chars[i + 4] == ' '
}

/// Appends to `out` the records of the line from `lo` up to `hi`.
fn scan_line(text: &str, chars: &Vec<char>, lo: usize, hi: usize, out: &mut Vec<ScoreRecord>)
    requires
        text@ == chars@,
        lo <= hi <= chars.len(),
    ensures
        record_views(final(out)@) == record_views(old(out)@) + line_records(
            chars@.subrange(lo as int, hi as int),
        ),
{
    let ghost line = chars@.subrange(lo as int, hi as int);
    let mut i: usize = lo;
    while hi - i >= 5
        invariant
            text@ == chars@,
            lo <= i <= hi <= chars.len(),
            out@ == old(out)@,
            line == chars@.subrange(lo as int, hi as int),
            forall|j: int| 0 <= j < i - lo ==> !marker_at(line, j),
        decreases hi - i,
    {
        if marker_here(chars, lo, hi, i) {
            let c = chars[i];
            let score: Option<i32> = if c == 'X' { None } else { Some((c as u32 - '0' as u32) as i32) };
            proof {
                lemma_first_marker(line, i - lo);
                assert(line.skip(i - lo + 5) =~= chars@.subrange(i + 5, hi as int));
                assert(score == score_of(line[i - lo]));
            }
            scan_users(text, chars, i + 5, hi, score, out);
            return ;
        }
        i = i + 1;
    }
    assert(!has_marker(line));
    assert(record_views(out@) =~= record_views(old(out)@) + line_records(line));
}

/// The records that one line of text holds.
pub fn parse_line(line: &str) -> (out: Vec<ScoreRecord>)
    ensures
        record_views(out@) == line_records(line@),
{
    let chars = chars_of(line);
    let mut out: Vec<ScoreRecord> = Vec::new();
    assert(chars@.subrange(0, chars.len() as int) =~= line@);
    scan_line(line, &chars, 0, chars.len(), &mut out);
    assert(record_views(out@) =~= line_records(line@));
    out
}

/// The records that a text of several lines holds, line by line.
pub fn parse_text(text: &str) -> (out: Vec<ScoreRecord>)
    ensures
        record_views(out@) == text_records(text@),
{
    let chars = chars_of(text);
    let n: usize = chars.len();
    let mut out: Vec<ScoreRecord> = Vec::new();
    let mut lo: usize = 0;
    assert(chars@.subrange(0, n as int) =~= text@);
    assert(record_views(out@) + text_records(text@) =~= text_records(text@));
    loop
        invariant
            text@ == chars@,
            n == chars.len(),
            lo <= n,
            record_views(out@) + text_records(chars@.subrange(lo as int, n as int)) == text_records(text@),
        decreases n - lo,
    {
        let ghost rest = chars@.subrange(lo as int, n as int);
        let mut hi: usize = lo;
        while hi < n && chars[hi] != '\n'
            invariant
                lo <= hi <= n,
                n == chars.len(),
                forall|k: int| lo <= k < hi ==> #[trigger] chars@[k] != '\n',
            decreases n - hi,
        {
            hi = hi + 1;
        }
        proof {
            lemma_line_len_is(rest, hi - lo);
            assert(rest.take(hi - lo) =~= chars@.subrange(lo as int, hi as int));
        }
        let ghost before = record_views(out@);
        scan_line(text, &chars, lo, hi, &mut out);
        if hi == n {
            assert(chars@.subrange(lo as int, hi as int) =~= rest);
            return out;
        }
        proof {
            assert(rest.skip(hi - lo + 1) =~= chars@.subrange(hi + 1, n as int));
            assert(record_views(out@) + text_records(chars@.subrange(hi + 1, n as int)) =~= before
                + text_records(rest));
        }
        lo = hi + 1;
    }
}

/// The records of one message: those of its text where a bot sent it, none otherwise.
pub open spec fn message_records_spec(is_bot: bool, content: Seq<char>) -> Seq<RecordView> {
    if is_bot {
        text_records(content)
    } else {
        Seq::empty()
    }
}

/// The records of one message. Only the messages of bots report results.
pub fn message_records(is_bot: bool, content: &str) -> (out: Vec<ScoreRecord>)
    ensures
        record_views(out@) == message_records_spec(is_bot, content@),
{
    if is_bot {
        parse_text(content)
    } else {
        let out: Vec<ScoreRecord> = Vec::new();
        assert(record_views(out@) =~= Seq::<RecordView>::empty());
        out
    }
}

} // verus!
