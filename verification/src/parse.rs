//! The multi-pattern log line parser: an ordered list of line shapes, a
//! timestamp resolver with a fallback grammar, and level-token normalization.
//!
//! Three shapes are recognized, in priority order:
//! 1. `<date> <time>[.fraction] LEVEL message` (bare level),
//! 2. `<date>T<time>[.fraction][Z|offset] [LEVEL] message` (bracketed level),
//! 3. `<MonthName> <day> <time> ... LEVEL ... message` (syslog-style, the
//!    current year is substituted).

use vstd::prelude::*;

use chrono::Datelike;

use crate::model::{ts_valid, EntryV, Level, LogEntry, Timestamp};
use crate::text::{
    dec_seq, digit2_at, digit_run_end, dval, is_digit, is_ws, next_ws, num2, num4, pad2,
    ws_run_end,
};

verus! {

// ---------------------------------------------------------------------------
// Timestamp grammar
// ---------------------------------------------------------------------------
/// Shape `YYYY-MM-DD<sep>HH:MM:SS` at the start of the text; the separator is
/// a space or a literal `T` (`T` alone when `t_only` is set).
pub open spec fn ts_head(s: Seq<char>, t_only: bool) -> bool {
    &&& s.len() >= 19
    &&& is_digit(s[0]) && is_digit(s[1]) && is_digit(s[2]) && is_digit(s[3])
    &&& s[4] == '-' && is_digit(s[5]) && is_digit(s[6]) && s[7] == '-'
    &&& is_digit(s[8]) && is_digit(s[9])
    &&& (if t_only {
        s[10] == 'T'
    } else {
        s[10] == ' ' || s[10] == 'T'
    })
    &&& is_digit(s[11]) && is_digit(s[12]) && s[13] == ':'
    &&& is_digit(s[14]) && is_digit(s[15]) && s[16] == ':'
    &&& is_digit(s[17]) && is_digit(s[18])
}

/// The six timestamp fields read from a text with the head shape.
pub open spec fn head_ts(s: Seq<char>) -> Timestamp {
    Timestamp {
        year: num4(s, 0) as u32,
        month: num2(s, 5) as u32,
        day: num2(s, 8) as u32,
        hour: num2(s, 11) as u32,
        minute: num2(s, 14) as u32,
        second: num2(s, 17) as u32,
    }
}

// ---------------------------------------------------------------------------
// Fixed-token matching
// ---------------------------------------------------------------------------
pub open spec fn m1(s: Seq<char>, p: int, a: char) -> bool {
    0 <= p < s.len() && s[p] == a
}

pub open spec fn m3(s: Seq<char>, p: int, a: char, b: char, c: char) -> bool {
    m1(s, p, a) && m1(s, p + 1, b) && m1(s, p + 2, c)
}

pub open spec fn m4(s: Seq<char>, p: int, a: char, b: char, c: char, d: char) -> bool {
    m3(s, p, a, b, c) && m1(s, p + 3, d)
}

pub open spec fn m5(s: Seq<char>, p: int, a: char, b: char, c: char, d: char, e: char) -> bool {
    m4(s, p, a, b, c, d) && m1(s, p + 4, e)
}

pub open spec fn m7(
    s: Seq<char>,
    p: int,
    a: char,
    b: char,
    c: char,
    d: char,
    e: char,
    f: char,
    g: char,
) -> bool {
    m5(s, p, a, b, c, d, e) && m1(s, p + 5, f) && m1(s, p + 6, g)
}

/// Length of the bare level token at `p`, matching the alternation order
/// `INFO | ERROR | WARNING | WARN`; -1 when none matches.
pub open spec fn bare_tok_len(s: Seq<char>, p: int) -> int {
    if m4(s, p, 'I', 'N', 'F', 'O') {
        4
    } else if m5(s, p, 'E', 'R', 'R', 'O', 'R') {
        5
    } else if m7(s, p, 'W', 'A', 'R', 'N', 'I', 'N', 'G') {
        7
    } else if m4(s, p, 'W', 'A', 'R', 'N') {
        4
    } else {
        -1
    }
}

/// Executable character test without a length precondition.
fn ch(s: &str, n: usize, p: usize, a: char) -> (r: bool)
    requires
        n == s@.len(),
    ensures
        r == m1(s@, p as int, a),
{
    p < n && s.get_char(p) == a
}

/// Executable counterpart of `bare_tok_len`; 0 stands for no match.
fn bare_tok(s: &str, n: usize, p: usize) -> (r: usize)
    requires
        n == s@.len(),
        p <= n,
    ensures
        r == 0 ==> bare_tok_len(s@, p as int) == -1,
        r != 0 ==> r == bare_tok_len(s@, p as int) && p + r <= n,
{
    if ch(s, n, p, 'I') && ch(s, n, p + 1, 'N') && ch(s, n, p + 2, 'F') && ch(s, n, p + 3, 'O') {
        4
    } else if ch(s, n, p, 'E') && ch(s, n, p + 1, 'R') && ch(s, n, p + 2, 'R') && ch(
        s,
        n,
        p + 3,
        'O',
    ) && ch(s, n, p + 4, 'R') {
        5
    } else if ch(s, n, p, 'W') && ch(s, n, p + 1, 'A') && ch(s, n, p + 2, 'R') && ch(
        s,
        n,
        p + 3,
        'N',
    ) && ch(s, n, p + 4, 'I') && ch(s, n, p + 5, 'N') && ch(s, n, p + 6, 'G') {
        7
    } else if ch(s, n, p, 'W') && ch(s, n, p + 1, 'A') && ch(s, n, p + 2, 'R') && ch(
        s,
        n,
        p + 3,
        'N',
    ) {
        4
    } else {
        0
    }
}

// ---------------------------------------------------------------------------
// Month names (syslog-style shape)
// ---------------------------------------------------------------------------
/// Month number for the three-letter month name at `p`; 0 when none matches.
pub open spec fn month_num(s: Seq<char>, p: int) -> int {
    if m3(s, p, 'J', 'a', 'n') {
        1
    } else if m3(s, p, 'F', 'e', 'b') {
        2
    } else if m3(s, p, 'M', 'a', 'r') {
        3
    } else if m3(s, p, 'A', 'p', 'r') {
        4
    } else if m3(s, p, 'M', 'a', 'y') {
        5
    } else if m3(s, p, 'J', 'u', 'n') {
        6
    } else if m3(s, p, 'J', 'u', 'l') {
        7
    } else if m3(s, p, 'A', 'u', 'g') {
        8
    } else if m3(s, p, 'S', 'e', 'p') {
        9
    } else if m3(s, p, 'O', 'c', 't') {
        10
    } else if m3(s, p, 'N', 'o', 'v') {
        11
    } else if m3(s, p, 'D', 'e', 'c') {
        12
    } else {
        0
    }
}

/// Executable counterpart of `month_num`.
fn month_at(s: &str, n: usize, p: usize) -> (r: u32)
    requires
        n == s@.len(),
        p <= n,
    ensures
        r == month_num(s@, p as int),
{
    if ch(s, n, p, 'J') && ch(s, n, p + 1, 'a') && ch(s, n, p + 2, 'n') {
        1
    } else if ch(s, n, p, 'F') && ch(s, n, p + 1, 'e') && ch(s, n, p + 2, 'b') {
        2
    } else if ch(s, n, p, 'M') && ch(s, n, p + 1, 'a') && ch(s, n, p + 2, 'r') {
        3
    } else if ch(s, n, p, 'A') && ch(s, n, p + 1, 'p') && ch(s, n, p + 2, 'r') {
        4
    } else if ch(s, n, p, 'M') && ch(s, n, p + 1, 'a') && ch(s, n, p + 2, 'y') {
        5
    } else if ch(s, n, p, 'J') && ch(s, n, p + 1, 'u') && ch(s, n, p + 2, 'n') {
        6
    } else if ch(s, n, p, 'J') && ch(s, n, p + 1, 'u') && ch(s, n, p + 2, 'l') {
        7
    } else if ch(s, n, p, 'A') && ch(s, n, p + 1, 'u') && ch(s, n, p + 2, 'g') {
        8
    } else if ch(s, n, p, 'S') && ch(s, n, p + 1, 'e') && ch(s, n, p + 2, 'p') {
        9
    } else if ch(s, n, p, 'O') && ch(s, n, p + 1, 'c') && ch(s, n, p + 2, 't') {
        10
    } else if ch(s, n, p, 'N') && ch(s, n, p + 1, 'o') && ch(s, n, p + 2, 'v') {
        11
    } else if ch(s, n, p, 'D') && ch(s, n, p + 1, 'e') && ch(s, n, p + 2, 'c') {
        12
    } else {
        0
    }
}

/// Month-name lookup over a whole token, as the syslog-style shape uses it.
/// An unrecognized token falls back to January.
pub open spec fn spec_mon_to_num(s: Seq<char>) -> u32 {
    if s.len() == 3 && month_num(s, 0) > 0 {
        month_num(s, 0) as u32
    } else {
        1
    }
}

pub fn mon_to_num(mon: &str) -> (r: u32)
    ensures
        r == spec_mon_to_num(mon@),
        1 <= r <= 12,
{
    let n = mon.unicode_len();
    if n == 3 {
        let m = month_at(mon, n, 0);
        if m > 0 {
            m
        } else {
            1
        }
    } else {
        1
    }
}

// ---------------------------------------------------------------------------
// Level-token normalization
// ---------------------------------------------------------------------------
pub open spec fn is_br(c: char) -> bool {
    c == '[' || c == ']'
}

pub open spec fn skip_br_front(s: Seq<char>, i: int) -> int
    decreases s.len() - i,
{
    if 0 <= i < s.len() && is_br(s[i]) {
        skip_br_front(s, i + 1)
    } else {
        i
    }
}

pub open spec fn skip_br_back(s: Seq<char>, j: int) -> int
    decreases j,
{
    if 0 < j <= s.len() && is_br(s[j - 1]) {
        skip_br_back(s, j - 1)
    } else {
        j
    }
}

/// Leading and trailing bracket characters removed, as `trim_matches` does.
pub open spec fn trim_br(s: Seq<char>) -> Seq<char> {
    let lo = skip_br_front(s, 0);
    let hi = skip_br_back(s, s.len() as int);
    if lo <= hi {
        s.subrange(lo, hi)
    } else {
        Seq::empty()
    }
}

pub open spec fn eqi(c: char, lo: char, up: char) -> bool {
    c == lo || c == up
}

pub open spec fn is_error_word(s: Seq<char>) -> bool {
    s.len() == 5 && eqi(s[0], 'e', 'E') && eqi(s[1], 'r', 'R') && eqi(s[2], 'r', 'R') && eqi(
        s[3],
        'o',
        'O',
    ) && eqi(s[4], 'r', 'R')
}

pub open spec fn is_warning_word(s: Seq<char>) -> bool {
    s.len() == 7 && eqi(s[0], 'w', 'W') && eqi(s[1], 'a', 'A') && eqi(s[2], 'r', 'R') && eqi(
        s[3],
        'n',
        'N',
    ) && eqi(s[4], 'i', 'I') && eqi(s[5], 'n', 'N') && eqi(s[6], 'g', 'G')
}

pub open spec fn is_warn_word(s: Seq<char>) -> bool {
    s.len() == 4 && eqi(s[0], 'w', 'W') && eqi(s[1], 'a', 'A') && eqi(s[2], 'r', 'R') && eqi(
        s[3],
        'n',
        'N',
    )
}

/// Level of a raw token: brackets are trimmed, the comparison is
/// case-insensitive, `WARN` is a synonym for `WARNING`, and any unrecognized
/// token leniently defaults to `Info`.
pub open spec fn spec_parse_level(s: Seq<char>) -> Level {
    let t = trim_br(s);
    if is_error_word(t) {
        Level::Error
    } else if is_warning_word(t) || is_warn_word(t) {
        Level::Warning
    } else {
        Level::Info
    }
}

proof fn lemma_skip_br_front(s: Seq<char>, i: int)
    requires
        0 <= i <= s.len(),
    ensures
        i <= skip_br_front(s, i) <= s.len(),
    decreases s.len() - i,
{
    if i < s.len() && is_br(s[i]) {
        lemma_skip_br_front(s, i + 1);
    }
}

proof fn lemma_skip_br_back(s: Seq<char>, j: int)
    requires
        0 <= j <= s.len(),
    ensures
        0 <= skip_br_back(s, j) <= j,
    decreases j,
{
    if 0 < j && is_br(s[j - 1]) {
        lemma_skip_br_back(s, j - 1);
    }
}

/// Executable case-insensitive character test.
fn chi(s: &str, n: usize, p: usize, lo: char, up: char) -> (r: bool)
    requires
        n == s@.len(),
    ensures
        r == (p < s@.len() && eqi(s@[p as int], lo, up)),
{
    if p < n {
        let c = s.get_char(p);
        c == lo || c == up
    } else {
        false
    }
}

pub fn parse_level(token: &str) -> (r: Level)
    ensures
        r == spec_parse_level(token@),
{
    let n = token.unicode_len();
    let mut lo: usize = 0;
    while lo < n && (token.get_char(lo) == '[' || token.get_char(lo) == ']')
        invariant
            0 <= lo <= n,
            n == token@.len(),
            skip_br_front(token@, 0) == skip_br_front(token@, lo as int),
        decreases n - lo,
    {
        lo = lo + 1;
    }
    assert(skip_br_front(token@, 0) == lo);
    let mut hi: usize = n;
    while hi > lo && (token.get_char(hi - 1) == '[' || token.get_char(hi - 1) == ']')
        invariant
            lo <= hi <= n,
            n == token@.len(),
            skip_br_back(token@, n as int) == skip_br_back(token@, hi as int),
        decreases hi,
    {
        hi = hi - 1;
    }
    proof {
        lemma_skip_br_back(token@, hi as int);
        assert(trim_br(token@) =~= token@.subrange(lo as int, hi as int));
    }
    let t = token.substring_char(lo, hi);
    let m = hi - lo;
    assert(m == t@.len());
    if m == 5 && chi(t, m, 0, 'e', 'E') && chi(t, m, 1, 'r', 'R') && chi(t, m, 2, 'r', 'R') && chi(
        t,
        m,
        3,
        'o',
        'O',
    ) && chi(t, m, 4, 'r', 'R') {
        Level::Error
    } else if (m == 7 && chi(t, m, 0, 'w', 'W') && chi(t, m, 1, 'a', 'A') && chi(t, m, 2, 'r', 'R')
        && chi(t, m, 3, 'n', 'N') && chi(t, m, 4, 'i', 'I') && chi(t, m, 5, 'n', 'N') && chi(
        t,
        m,
        6,
        'g',
        'G',
    )) || (m == 4 && chi(t, m, 0, 'w', 'W') && chi(t, m, 1, 'a', 'A') && chi(t, m, 2, 'r', 'R')
        && chi(t, m, 3, 'n', 'N')) {
        Level::Warning
    } else {
        Level::Info
    }
}

// ---------------------------------------------------------------------------
// Timestamp resolution
// ---------------------------------------------------------------------------
/// End of the optional fractional-seconds part starting at position 19, with
/// a dot or a comma as separator; -1 when a separator stands without digits.
pub open spec fn frac_end(s: Seq<char>) -> int {
    if s.len() > 19 && (s[19] == '.' || s[19] == ',') {
        if s.len() > 20 && is_digit(s[20]) {
            digit_run_end(s, 20)
        } else {
            -1
        }
    } else {
        19
    }
}

/// The trailing timezone marker beginning at `p` covers the rest of the
/// text: nothing, `Z`, or a sign with `HH:MM` or `HHMM`. The marker is
/// recognized only to be discarded.
pub open spec fn tz_covers(s: Seq<char>, p: int) -> bool {
    ||| p == s.len()
    ||| (p + 1 == s.len() && s[p] == 'Z')
    ||| (0 <= p < s.len() && (s[p] == '+' || s[p] == '-') && ((p + 6 == s.len() && digit2_at(
        s,
        p + 1,
    ) && s[p + 3] == ':' && digit2_at(s, p + 4)) || (p + 5 == s.len() && digit2_at(s, p + 1)
        && digit2_at(s, p + 3))))
}

/// The timestamp resolver's grammar: date and time with either separator,
/// optional fraction, optional trailing timezone marker; the fields must
/// form a real calendar date and time of day.
pub open spec fn spec_parse_ts(s: Seq<char>) -> Option<Timestamp> {
    if ts_head(s, false) && frac_end(s) >= 0 && tz_covers(s, frac_end(s)) {
        if ts_valid(head_ts(s)) {
            Some(head_ts(s))
        } else {
            None
        }
    } else {
        None
    }
}

/// Executable test for the head shape.
pub(crate) fn check_ts_head(s: &str, n: usize, t_only: bool) -> (r: bool)
    requires
        n == s@.len(),
    ensures
        r == ts_head(s@, t_only),
{
    n >= 19 && crate::text::digit_at(s, n, 0) && crate::text::digit_at(s, n, 1)
        && crate::text::digit_at(s, n, 2) && crate::text::digit_at(s, n, 3) && ch(s, n, 4, '-')
        && crate::text::digit_at(s, n, 5) && crate::text::digit_at(s, n, 6) && ch(s, n, 7, '-')
        && crate::text::digit_at(s, n, 8) && crate::text::digit_at(s, n, 9) && (if t_only {
        ch(s, n, 10, 'T')
    } else {
        ch(s, n, 10, ' ') || ch(s, n, 10, 'T')
    }) && crate::text::digit_at(s, n, 11) && crate::text::digit_at(s, n, 12) && ch(s, n, 13, ':')
        && crate::text::digit_at(s, n, 14) && crate::text::digit_at(s, n, 15) && ch(s, n, 16, ':')
        && crate::text::digit_at(s, n, 17) && crate::text::digit_at(s, n, 18)
}

/// Read the six fields of a text with the head shape.
pub(crate) fn read_head_ts(s: &str, n: usize) -> (t: Timestamp)
    requires
        n == s@.len(),
        ts_head(s@, false),
    ensures
        t == head_ts(s@),
{
    Timestamp {
        year: crate::text::read_num4(s, n, 0),
        month: crate::text::read_num2(s, n, 5),
        day: crate::text::read_num2(s, n, 8),
        hour: crate::text::read_num2(s, n, 11),
        minute: crate::text::read_num2(s, n, 14),
        second: crate::text::read_num2(s, n, 17),
    }
}

/// Executable counterpart of `frac_end`; `None` stands for -1.
fn find_frac_end(s: &str, n: usize) -> (r: Option<usize>)
    requires
        n == s@.len(),
        n >= 19,
    ensures
        match r {
            Some(e) => frac_end(s@) == e && 19 <= e <= n,
            None => frac_end(s@) == -1,
        },
{
    if n > 19 && (ch(s, n, 19, '.') || ch(s, n, 19, ',')) {
        if n > 20 && crate::text::digit_at(s, n, 20) {
            Some(crate::text::find_digit_run_end(s, n, 20))
        } else {
            None
        }
    } else {
        Some(19)
    }
}

/// Executable test that a timezone marker at `p` covers the rest.
fn check_tz_covers(s: &str, n: usize, p: usize) -> (r: bool)
    requires
        n == s@.len(),
        p <= n,
    ensures
        r == tz_covers(s@, p as int),
{
    if p == n {
        true
    } else if n - p == 1 && ch(s, n, p, 'Z') {
        true
    } else if ch(s, n, p, '+') || ch(s, n, p, '-') {
        if n - p == 6 && crate::text::digit_at(s, n, p + 1) && crate::text::digit_at(s, n, p + 2)
            && ch(s, n, p + 3, ':') && crate::text::digit_at(s, n, p + 4) && crate::text::digit_at(
            s,
            n,
            p + 5,
        ) {
            true
        } else {
            n - p == 5 && crate::text::digit_at(s, n, p + 1) && crate::text::digit_at(s, n, p + 2)
                && crate::text::digit_at(s, n, p + 3) && crate::text::digit_at(s, n, p + 4)
        }
    } else {
        false
    }
}

/// The timestamp resolver: first successful template of the grammar, or
/// `None` when every attempt fails.
pub fn parse_ts(s: &str) -> (r: Option<Timestamp>)
    ensures
        r == spec_parse_ts(s@),
{
    let n = s.unicode_len();
    if !check_ts_head(s, n, false) {
        return None;
    }
    let fe = match find_frac_end(s, n) {
        Some(fe) => fe,
        None => {
            return None;
        },
    };
    if !check_tz_covers(s, n, fe) {
        return None;
    }
    let t = read_head_ts(s, n);
    if t.valid() {
        Some(t)
    } else {
        None
    }
}

// ---------------------------------------------------------------------------
// Shape 1: `<date> <time>[.fraction] LEVEL message`
// ---------------------------------------------------------------------------
/// What a structural match yields: the raw timestamp text, the raw level
/// token, and the message.
pub struct RawMatch {
    pub ts: Seq<char>,
    pub level: Seq<char>,
    pub msg: Seq<char>,
}

/// End of the timestamp capture of shape 1, whose fraction may hold one to
/// six digits; -1 when the shape fails there.
pub open spec fn p1_ts_end(s: Seq<char>) -> int {
    if !ts_head(s, false) {
        -1
    } else if s.len() > 19 && (s[19] == '.' || s[19] == ',') {
        if s.len() > 20 && is_digit(s[20]) && digit_run_end(s, 20) <= 26 {
            digit_run_end(s, 20)
        } else {
            -1
        }
    } else {
        19
    }
}

pub open spec fn spec_p1(s: Seq<char>) -> Option<RawMatch> {
    let te = p1_ts_end(s);
    if te < 0 {
        None
    } else {
        let ls = ws_run_end(s, te);
        if ls == te {
            None
        } else {
            let tl = bare_tok_len(s, ls);
            if tl < 0 {
                None
            } else {
                let ms = ws_run_end(s, ls + tl);
                if ms == ls + tl {
                    None
                } else {
                    Some(
                        RawMatch {
                            ts: s.subrange(0, te),
                            level: s.subrange(ls, ls + tl),
                            msg: s.subrange(ms, s.len() as int),
                        },
                    )
                }
            }
        }
    }
}

/// Executable matcher for shape 1, returning the timestamp end, the level
/// bounds, and the message start.
fn match_p1(s: &str, n: usize) -> (r: Option<(usize, usize, usize, usize)>)
    requires
        n == s@.len(),
    ensures
        match r {
            None => spec_p1(s@) is None,
            Some((te, ls, le, ms)) => {
                &&& te <= ls <= le <= ms <= n
                &&& spec_p1(s@) == Some(
                    RawMatch {
                        ts: s@.subrange(0, te as int),
                        level: s@.subrange(ls as int, le as int),
                        msg: s@.subrange(ms as int, n as int),
                    },
                )
            },
        },
{
    if !check_ts_head(s, n, false) {
        return None;
    }
    let te: usize = if n > 19 && (ch(s, n, 19, '.') || ch(s, n, 19, ',')) {
        if n > 20 && crate::text::digit_at(s, n, 20) {
            let e = crate::text::find_digit_run_end(s, n, 20);
            if e <= 26 {
                e
            } else {
                return None;
            }
        } else {
            return None;
        }
    } else {
        19
    };
    let ls = crate::text::find_ws_run_end(s, n, te);
    if ls == te {
        return None;
    }
    let tl = bare_tok(s, n, ls);
    if tl == 0 {
        return None;
    }
    let le = ls + tl;
    let ms = crate::text::find_ws_run_end(s, n, le);
    if ms == le {
        return None;
    }
    Some((te, ls, le, ms))
}

// ---------------------------------------------------------------------------
// Shape 2: `<date>T<time>[.fraction][Z|offset] [LEVEL] message`
// ---------------------------------------------------------------------------
/// End of the optional dot-fraction of shape 2; -1 when a dot stands without
/// digits.
pub open spec fn p2_frac_end(s: Seq<char>) -> int {
    if s.len() > 19 && s[19] == '.' {
        if s.len() > 20 && is_digit(s[20]) {
            digit_run_end(s, 20)
        } else {
            -1
        }
    } else {
        19
    }
}

/// End of the optional timezone marker of shape 2 beginning at `p`; -1 when
/// a sign stands without a well-formed offset.
pub open spec fn p2_tz_end(s: Seq<char>, p: int) -> int {
    if m1(s, p, 'Z') {
        p + 1
    } else if m1(s, p, '+') || m1(s, p, '-') {
        if digit2_at(s, p + 1) && m1(s, p + 3, ':') && digit2_at(s, p + 4) {
            p + 6
        } else if digit2_at(s, p + 1) && digit2_at(s, p + 3) {
            p + 5
        } else {
            -1
        }
    } else {
        p
    }
}

pub open spec fn spec_p2(s: Seq<char>) -> Option<RawMatch> {
    if !ts_head(s, true) {
        None
    } else {
        let fe = p2_frac_end(s);
        if fe < 0 {
            None
        } else {
            let te = p2_tz_end(s, fe);
            if te < 0 {
                None
            } else {
                let bs = ws_run_end(s, te);
                if !m1(s, bs, '[') {
                    None
                } else {
                    let tl = bare_tok_len(s, bs + 1);
                    if tl < 0 {
                        None
                    } else if !m1(s, bs + 1 + tl, ']') {
                        None
                    } else {
                        let ms = ws_run_end(s, bs + 2 + tl);
                        Some(
                            RawMatch {
                                ts: s.subrange(0, te),
                                level: s.subrange(bs + 1, bs + 1 + tl),
                                msg: s.subrange(ms, s.len() as int),
                            },
                        )
                    }
                }
            }
        }
    }
}

/// Executable matcher for shape 2.
fn match_p2(s: &str, n: usize) -> (r: Option<(usize, usize, usize, usize)>)
    requires
        n == s@.len(),
    ensures
        match r {
            None => spec_p2(s@) is None,
            Some((te, ls, le, ms)) => {
                &&& te <= n && ls <= le <= ms <= n
                &&& spec_p2(s@) == Some(
                    RawMatch {
                        ts: s@.subrange(0, te as int),
                        level: s@.subrange(ls as int, le as int),
                        msg: s@.subrange(ms as int, n as int),
                    },
                )
            },
        },
{
    if !check_ts_head(s, n, true) {
        return None;
    }
    let fe: usize = if n > 19 && ch(s, n, 19, '.') {
        if n > 20 && crate::text::digit_at(s, n, 20) {
            crate::text::find_digit_run_end(s, n, 20)
        } else {
            return None;
        }
    } else {
        19
    };
    let te: usize = if ch(s, n, fe, 'Z') {
        fe + 1
    } else if ch(s, n, fe, '+') || ch(s, n, fe, '-') {
        if crate::text::digit_at(s, n, fe + 1) && crate::text::digit_at(s, n, fe + 2) && ch(
            s,
            n,
            fe + 3,
            ':',
        ) && crate::text::digit_at(s, n, fe + 4) && crate::text::digit_at(s, n, fe + 5) {
            fe + 6
        } else if crate::text::digit_at(s, n, fe + 1) && crate::text::digit_at(s, n, fe + 2)
            && crate::text::digit_at(s, n, fe + 3) && crate::text::digit_at(s, n, fe + 4) {
            fe + 5
        } else {
            return None;
        }
    } else {
        fe
    };
    let bs = crate::text::find_ws_run_end(s, n, te);
    if !ch(s, n, bs, '[') {
        return None;
    }
    let tl = bare_tok(s, n, bs + 1);
    if tl == 0 {
        return None;
    }
    if !ch(s, n, bs + 1 + tl, ']') {
        return None;
    }
    let ms = crate::text::find_ws_run_end(s, n, bs + 2 + tl);
    Some((te, bs + 1, bs + 1 + tl, ms))
}

// ---------------------------------------------------------------------------
// Shape 3: `<MonthName> <day> <time> ... LEVEL ... message`
// ---------------------------------------------------------------------------
/// Length of the level token at `p` for shape 3, where the token may also
/// appear in brackets; -1 when none matches.
pub open spec fn p3_tok_len(s: Seq<char>, p: int) -> int {
    if bare_tok_len(s, p) > 0 {
        bare_tok_len(s, p)
    } else if m1(s, p, '[') && bare_tok_len(s, p + 1) > 0 && m1(
        s,
        p + 1 + bare_tok_len(s, p + 1),
        ']',
    ) {
        bare_tok_len(s, p + 1) + 2
    } else {
        -1
    }
}

/// Earliest position at or after `p` holding a level token that is followed,
/// somewhere, by whitespace; -1 when there is none. This encodes the lazy
/// scan of the shape: the first viable token wins.
pub open spec fn p3_find(s: Seq<char>, p: int) -> int
    decreases s.len() - p,
{
    if 0 <= p < s.len() {
        if p3_tok_len(s, p) > 0 && next_ws(s, p + p3_tok_len(s, p)) < s.len() {
            p
        } else {
            p3_find(s, p + 1)
        }
    } else {
        -1
    }
}

/// What a structural match of shape 3 yields, as positions into the line.
pub struct P3Match {
    pub mon: int,
    pub day: int,
    pub time_start: int,
    pub lvl_start: int,
    pub lvl_len: int,
    pub msg_start: int,
}

pub open spec fn spec_p3(s: Seq<char>) -> Option<P3Match> {
    let mn = month_num(s, 0);
    if mn == 0 {
        None
    } else {
        let ds = ws_run_end(s, 3);
        if ds == 3 {
            None
        } else {
            let de = digit_run_end(s, ds);
            if de == ds || de > ds + 2 {
                None
            } else {
                let t0 = ws_run_end(s, de);
                if t0 == de {
                    None
                } else if !(digit2_at(s, t0) && m1(s, t0 + 2, ':') && digit2_at(s, t0 + 3) && m1(
                    s,
                    t0 + 5,
                    ':',
                ) && digit2_at(s, t0 + 6)) {
                    None
                } else {
                    let lp = p3_find(s, t0 + 8);
                    if lp < 0 {
                        None
                    } else {
                        let ll = p3_tok_len(s, lp);
                        let w = next_ws(s, lp + ll);
                        Some(
                            P3Match {
                                mon: mn,
                                day: if de == ds + 1 {
                                    dval(s[ds])
                                } else {
                                    num2(s, ds)
                                },
                                time_start: t0,
                                lvl_start: lp,
                                lvl_len: ll,
                                msg_start: w + 1,
                            },
                        )
                    }
                }
            }
        }
    }
}

/// Executable counterpart of `p3_tok_len`; 0 stands for no match.
fn p3_tok(s: &str, n: usize, p: usize) -> (r: usize)
    requires
        n == s@.len(),
        p <= n,
    ensures
        r == 0 ==> p3_tok_len(s@, p as int) == -1,
        r != 0 ==> r == p3_tok_len(s@, p as int) && p + r <= n,
{
    let b = bare_tok(s, n, p);
    if b != 0 {
        return b;
    }
    if ch(s, n, p, '[') {
        let ib = bare_tok(s, n, p + 1);
        if ib != 0 && ch(s, n, p + 1 + ib, ']') {
            return ib + 2;
        }
    }
    0
}

/// Executable counterpart of `p3_find`.
fn p3_scan(s: &str, n: usize, start: usize) -> (r: Option<(usize, usize)>)
    requires
        n == s@.len(),
        start <= n,
    ensures
        match r {
            None => p3_find(s@, start as int) == -1,
            Some((p, l)) => {
                &&& p3_find(s@, start as int) == p
                &&& l == p3_tok_len(s@, p as int)
                &&& p + l <= n
                &&& next_ws(s@, p + l) < s@.len()
            },
        },
{
    let mut p = start;
    while p < n
        invariant
            start <= p <= n,
            n == s@.len(),
            p3_find(s@, start as int) == p3_find(s@, p as int),
        decreases n - p,
    {
        let l = p3_tok(s, n, p);
        if l != 0 {
            let w = crate::text::find_next_ws(s, n, p + l);
            if w < n {
                return Some((p, l));
            }
        }
        p = p + 1;
    }
    None
}

/// Executable matcher for shape 3: month, day, and the positions of the
/// time, the level token and the message.
fn match_p3(s: &str, n: usize) -> (r: Option<(u32, u32, usize, usize, usize, usize)>)
    requires
        n == s@.len(),
    ensures
        match r {
            None => spec_p3(s@) is None,
            Some((mon, day, t0, lp, ll, ms)) => {
                &&& t0 + 8 <= n && lp <= n && ll >= 4 && lp + ll <= n && ms <= n
                &&& digit2_at(s@, t0 as int) && digit2_at(s@, t0 + 3) && digit2_at(s@, t0 + 6)
                &&& spec_p3(s@) == Some(
                    P3Match {
                        mon: mon as int,
                        day: day as int,
                        time_start: t0 as int,
                        lvl_start: lp as int,
                        lvl_len: ll as int,
                        msg_start: ms as int,
                    },
                )
                &&& 1 <= mon <= 12
                &&& day <= 99
            },
        },
{
    if n < 3 {
        return None;
    }
    let mn = month_at(s, n, 0);
    if mn == 0 {
        return None;
    }
    let ds = crate::text::find_ws_run_end(s, n, 3);
    if ds == 3 {
        return None;
    }
    let de = crate::text::find_digit_run_end(s, n, ds);
    if de == ds || de - ds > 2 {
        return None;
    }
    let t0 = crate::text::find_ws_run_end(s, n, de);
    if t0 == de {
        return None;
    }
    if !(crate::text::digit_at(s, n, t0) && crate::text::digit_at(s, n, t0 + 1) && ch(
        s,
        n,
        t0 + 2,
        ':',
    ) && crate::text::digit_at(s, n, t0 + 3) && crate::text::digit_at(s, n, t0 + 4) && ch(
        s,
        n,
        t0 + 5,
        ':',
    ) && crate::text::digit_at(s, n, t0 + 6) && crate::text::digit_at(s, n, t0 + 7)) {
        return None;
    }
    let (lp, ll) = match p3_scan(s, n, t0 + 8) {
        Some(pl) => pl,
        None => {
            return None;
        },
    };
    let w = crate::text::find_next_ws(s, n, lp + ll);
    proof {
        crate::text::lemma_digit_run_chars(s@, ds as int);
    }
    let day: u32 = if de == ds + 1 {
        s.get_char(ds) as u32 - 48
    } else {
        crate::text::read_num2(s, n, ds)
    };
    let mon32: u32 = mn;
    Some((mon32, day, t0, lp, ll, w + 1))
}

// ---------------------------------------------------------------------------
// The parser
// ---------------------------------------------------------------------------
/// What parsing one line yields: no shape applies, a shape applied but the
/// timestamp could not be resolved (with the diagnostic message), or a
/// record.
pub enum LineSpec {
    NoMatch,
    BadTs(Seq<char>),
    Entry(EntryV),
}

pub open spec fn bad_ts_msg(raw: Seq<char>) -> Seq<char> {
    "Could not parse timestamp: "@ + raw
}

pub open spec fn bad_dt_msg(composed: Seq<char>) -> Seq<char> {
    "Failed to parse datetime: "@ + composed
}

/// The timestamp of a shape-3 match, with the injected year substituted.
pub open spec fn p3_timestamp(s: Seq<char>, m: P3Match, year: u32) -> Timestamp {
    Timestamp {
        year: year,
        month: m.mon as u32,
        day: m.day as u32,
        hour: num2(s, m.time_start) as u32,
        minute: num2(s, m.time_start + 3) as u32,
        second: num2(s, m.time_start + 6) as u32,
    }
}

/// The composed date-time text a shape-3 failure reports.
pub open spec fn p3_ts_seq(s: Seq<char>, m: P3Match, year: u32) -> Seq<char> {
    dec_seq(year as int) + seq!['-'] + pad2(m.mon) + seq!['-'] + pad2(m.day) + seq![' ']
        + s.subrange(m.time_start, m.time_start + 8)
}

/// One line through the ordered shape list: the first structural match
/// decides; a structural match with an unresolvable timestamp is a hard
/// failure, never a fall-through to the next shape.
pub open spec fn spec_parse_line(s: Seq<char>, year: u32) -> LineSpec {
    match spec_p1(s) {
        Some(m) => match spec_parse_ts(m.ts) {
            Some(t) => LineSpec::Entry(
                EntryV { ts: t, level: spec_parse_level(m.level), message: m.msg },
            ),
            None => LineSpec::BadTs(bad_ts_msg(m.ts)),
        },
        None => match spec_p2(s) {
            Some(m) => match spec_parse_ts(m.ts) {
                Some(t) => LineSpec::Entry(
                    EntryV { ts: t, level: spec_parse_level(m.level), message: m.msg },
                ),
                None => LineSpec::BadTs(bad_ts_msg(m.ts)),
            },
            None => match spec_p3(s) {
                Some(m) => {
                    let t = p3_timestamp(s, m, year);
                    if ts_valid(t) {
                        LineSpec::Entry(
                            EntryV {
                                ts: t,
                                level: spec_parse_level(
                                    s.subrange(m.lvl_start, m.lvl_start + m.lvl_len),
                                ),
                                message: s.subrange(m.msg_start, s.len() as int),
                            },
                        )
                    } else {
                        LineSpec::BadTs(bad_dt_msg(p3_ts_seq(s, m, year)))
                    }
                },
                None => LineSpec::NoMatch,
            },
        },
    }
}

/// Relies on chrono::Local::now and chrono::Datelike::year: the calendar
/// year of the current local time. The result depends on the clock, so
/// nothing is promised of it.
#[verifier::external_body]
fn now_year() -> (y: i32) {
    chrono::Local::now().year()
}

/// A parser of log lines. `line_spec` is the implementor's behavior as a
/// mathematical function; `parse_line` must follow it and may not change it.
pub trait LogParser {
    spec fn line_spec(&self, line: Seq<char>) -> LineSpec;

    /// Parse a single line into an optional LogEntry.
    fn parse_line(&mut self, line: &str) -> (r: Result<Option<LogEntry>, String>)
        ensures
            forall|l: Seq<char>| #[trigger] final(self).line_spec(l) == old(self).line_spec(l),
            match old(self).line_spec(line@) {
                LineSpec::NoMatch => r matches Ok(o) && o is None,
                LineSpec::BadTs(m) => r matches Err(e) && e@ == m,
                LineSpec::Entry(ev) => r matches Ok(Some(en)) && en@ == ev && ts_valid(ev.ts),
            },
    ;
}

/// The built-in parser: tries the shapes in priority order. The year used
/// by the syslog-style shape is injected at construction.
pub struct DefaultLogParser {
    current_year: u32,
}

impl DefaultLogParser {
    /// The year the syslog-style shape substitutes, as a spec value.
    pub closed spec fn spec_year(&self) -> u32 {
        self.current_year
    }

    /// The injected year always fits four digits.
    #[verifier::type_invariant]
    closed spec fn year_inv(&self) -> bool {
        self.current_year <= 9999
    }

    /// The year the syslog-style shape substitutes.
    pub fn year(&self) -> (r: u32)
        ensures
            r == self.spec_year(),
    {
        self.current_year
    }

    /// A parser that reads the current calendar year from the local clock.
    /// A clock outside the four-digit range falls back to year zero.
    pub fn new() -> (r: Self)
        ensures
            r.spec_year() <= 9999,
    {
        let y = now_year();
        if 0 <= y && y <= 9999 {
            DefaultLogParser { current_year: y as u32 }
        } else {
            DefaultLogParser { current_year: 0 }
        }
    }

    /// A parser with an explicitly injected year, for deterministic use.
    pub fn with_year(year: u32) -> (r: Self)
        requires
            year <= 9999,
        ensures
            r.spec_year() == year,
    {
        DefaultLogParser { current_year: year }
    }
}

impl LogParser for DefaultLogParser {
    open spec fn line_spec(&self, line: Seq<char>) -> LineSpec {
        spec_parse_line(line, self.spec_year())
    }

    fn parse_line(&mut self, line: &str) -> (r: Result<Option<LogEntry>, String>) {
        let n = line.unicode_len();
        if let Some((te, ls, le, ms)) = match_p1(line, n) {
            let ts_raw = line.substring_char(0, te);
            match parse_ts(ts_raw) {
                Some(t) => {
                    let level = parse_level(line.substring_char(ls, le));
                    let message = line.substring_char(ms, n).to_owned();
                    Ok(Some(LogEntry { ts: t, level, message }))
                },
                None => {
                    let mut e = String::new();
                    e.append("Could not parse timestamp: ");
                    e.append(ts_raw);
                    Err(e)
                },
            }
        } else if let Some((te, ls, le, ms)) = match_p2(line, n) {
            let ts_raw = line.substring_char(0, te);
            match parse_ts(ts_raw) {
                Some(t) => {
                    let level = parse_level(line.substring_char(ls, le));
                    let message = line.substring_char(ms, n).to_owned();
                    Ok(Some(LogEntry { ts: t, level, message }))
                },
                None => {
                    let mut e = String::new();
                    e.append("Could not parse timestamp: ");
                    e.append(ts_raw);
                    Err(e)
                },
            }
        } else if let Some((mon, day, t0, lp, ll, ms)) = match_p3(line, n) {
            let t = Timestamp {
                year: self.current_year,
                month: mon,
                day,
                hour: crate::text::read_num2(line, n, t0),
                minute: crate::text::read_num2(line, n, t0 + 3),
                second: crate::text::read_num2(line, n, t0 + 6),
            };
            if t.valid() {
                let level = parse_level(line.substring_char(lp, lp + ll));
                let message = line.substring_char(ms, n).to_owned();
                Ok(Some(LogEntry { ts: t, level, message }))
            } else {
                proof {
                    use_type_invariant(&*self);
                }
                let mut e = String::new();
                e.append("Failed to parse datetime: ");
                crate::text::push_dec(&mut e, self.current_year);
                e.append("-");
                crate::text::push_pad2(&mut e, mon);
                e.append("-");
                crate::text::push_pad2(&mut e, day);
                e.append(" ");
                e.append(line.substring_char(t0, t0 + 8));
                proof {
                    reveal_strlit("-");
                    reveal_strlit(" ");
                    assert("-"@ =~= seq!['-']);
                    assert(" "@ =~= seq![' ']);
                    assert(e@ =~= bad_dt_msg(
                        p3_ts_seq(line@, spec_p3(line@)->Some_0, self.current_year),
                    ));
                }
                Err(e)
            }
        } else {
            Ok(None)
        }
    }
}

} // verus!
