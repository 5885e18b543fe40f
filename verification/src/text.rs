//! Character and text utilities shared by the parser, the filters and the
//! summary renderer: digit arithmetic on characters, whitespace and digit
//! runs, substring containment, and case folding.

use vstd::prelude::*;

verus! {

pub open spec fn is_digit(c: char) -> bool {
    '0' <= c && c <= '9'
}

/// Numeric value of a digit character.
pub open spec fn dval(c: char) -> int {
    c as int - 48
}

/// Two-digit decimal number starting at `i`.
pub open spec fn num2(s: Seq<char>, i: int) -> int {
    dval(s[i]) * 10 + dval(s[i + 1])
}

/// Four-digit decimal number starting at `i`.
pub open spec fn num4(s: Seq<char>, i: int) -> int {
    ((dval(s[i]) * 10 + dval(s[i + 1])) * 10 + dval(s[i + 2])) * 10 + dval(s[i + 3])
}

pub open spec fn digit2_at(s: Seq<char>, i: int) -> bool {
    0 <= i && i + 2 <= s.len() && is_digit(s[i]) && is_digit(s[i + 1])
}

/// ASCII whitespace, as the line patterns accept between fields.
pub open spec fn is_ws(c: char) -> bool {
    c == ' ' || c == '\t' || c == '\n' || c == '\r' || c == '\u{b}' || c == '\u{c}'
}

/// First index at or after `i` that does not hold a digit (or the length).
pub open spec fn digit_run_end(s: Seq<char>, i: int) -> int
    decreases s.len() - i,
{
    if 0 <= i < s.len() && is_digit(s[i]) {
        digit_run_end(s, i + 1)
    } else {
        i
    }
}

/// First index at or after `i` that does not hold whitespace (or the length).
pub open spec fn ws_run_end(s: Seq<char>, i: int) -> int
    decreases s.len() - i,
{
    if 0 <= i < s.len() && is_ws(s[i]) {
        ws_run_end(s, i + 1)
    } else {
        i
    }
}

/// First index at or after `i` holding whitespace (or the length when none).
pub open spec fn next_ws(s: Seq<char>, i: int) -> int
    decreases s.len() - i,
{
    if 0 <= i < s.len() {
        if is_ws(s[i]) {
            i
        } else {
            next_ws(s, i + 1)
        }
    } else {
        i
    }
}

pub proof fn lemma_digit_run_end(s: Seq<char>, i: int)
    requires
        0 <= i <= s.len(),
    ensures
        i <= digit_run_end(s, i) <= s.len(),
    decreases s.len() - i,
{
    if i < s.len() && is_digit(s[i]) {
        lemma_digit_run_end(s, i + 1);
    }
}

pub proof fn lemma_digit_run_chars(s: Seq<char>, i: int)
    requires
        0 <= i <= s.len(),
    ensures
        forall|j: int| i <= j < digit_run_end(s, i) ==> is_digit(s[j]),
    decreases s.len() - i,
{
    if i < s.len() && is_digit(s[i]) {
        lemma_digit_run_chars(s, i + 1);
    }
}

pub proof fn lemma_ws_run_end(s: Seq<char>, i: int)
    requires
        0 <= i <= s.len(),
    ensures
        i <= ws_run_end(s, i) <= s.len(),
    decreases s.len() - i,
{
    if i < s.len() && is_ws(s[i]) {
        lemma_ws_run_end(s, i + 1);
    }
}

pub proof fn lemma_next_ws(s: Seq<char>, i: int)
    requires
        0 <= i <= s.len(),
    ensures
        i <= next_ws(s, i) <= s.len(),
    decreases s.len() - i,
{
    if i < s.len() && !is_ws(s[i]) {
        lemma_next_ws(s, i + 1);
    }
}

/// `needle` occurs contiguously inside `hay`.
pub open spec fn contains_sub(hay: Seq<char>, needle: Seq<char>) -> bool {
    exists|i: int|
        0 <= i && i + needle.len() <= hay.len() && #[trigger] hay.subrange(
            i,
            i + needle.len() as int,
        ) == needle
}

/// What `str::to_lowercase` returns: Unicode lowercase folding, a function of
/// the characters alone.
pub uninterp spec fn lower_of(s: Seq<char>) -> Seq<char>;

/// Relies on str::to_lowercase: the lowercase equivalent of the string, a
/// function of its characters alone.
#[verifier::external_body]
pub fn lowercase(s: &str) -> (r: String)
    ensures
        r@ == lower_of(s@),
{
    s.to_lowercase()
}

/// Relies on str::contains: true exactly when `needle` matches a sub-slice
/// of `hay`.
#[verifier::external_body]
pub fn contains_str(hay: &str, needle: &str) -> (r: bool)
    ensures
        r == contains_sub(hay@, needle@),
{
    hay.contains(needle)
}

/// Executable digit test on one character of a string.
pub fn digit_at(s: &str, n: usize, i: usize) -> (r: bool)
    requires
        n == s@.len(),
    ensures
        r == (i < s@.len() && is_digit(s@[i as int])),
{
    if i < n {
        let c = s.get_char(i);
        '0' <= c && c <= '9'
    } else {
        false
    }
}

/// Executable character test at one position of a string.
pub fn char_at_is(s: &str, n: usize, i: usize, c: char) -> (r: bool)
    requires
        n == s@.len(),
    ensures
        r == (i < s@.len() && s@[i as int] == c),
{
    i < n && s.get_char(i) == c
}

/// Executable whitespace test at one position of a string.
pub fn ws_at(s: &str, n: usize, i: usize) -> (r: bool)
    requires
        n == s@.len(),
    ensures
        r == (i < s@.len() && is_ws(s@[i as int])),
{
    if i < n {
        let c = s.get_char(i);
        c == ' ' || c == '\t' || c == '\n' || c == '\r' || c == '\u{b}' || c == '\u{c}'
    } else {
        false
    }
}

/// Executable counterpart of `digit_run_end`.
pub fn find_digit_run_end(s: &str, n: usize, i: usize) -> (r: usize)
    requires
        n == s@.len(),
        i <= n,
    ensures
        r == digit_run_end(s@, i as int),
        i <= r <= n,
{
    let mut j = i;
    while j < n && digit_at(s, n, j)
        invariant
            i <= j <= n,
            n == s@.len(),
            digit_run_end(s@, i as int) == digit_run_end(s@, j as int),
        decreases n - j,
    {
        j = j + 1;
    }
    proof {
        lemma_digit_run_end(s@, j as int);
    }
    j
}

/// Executable counterpart of `ws_run_end`.
pub fn find_ws_run_end(s: &str, n: usize, i: usize) -> (r: usize)
    requires
        n == s@.len(),
        i <= n,
    ensures
        r == ws_run_end(s@, i as int),
        i <= r <= n,
{
    let mut j = i;
    while j < n && ws_at(s, n, j)
        invariant
            i <= j <= n,
            n == s@.len(),
            ws_run_end(s@, i as int) == ws_run_end(s@, j as int),
        decreases n - j,
    {
        j = j + 1;
    }
    proof {
        lemma_ws_run_end(s@, j as int);
    }
    j
}

/// Executable counterpart of `next_ws`.
pub fn find_next_ws(s: &str, n: usize, i: usize) -> (r: usize)
    requires
        n == s@.len(),
        i <= n,
    ensures
        r == next_ws(s@, i as int),
        i <= r <= n,
{
    let mut j = i;
    while j < n && !ws_at(s, n, j)
        invariant
            i <= j <= n,
            n == s@.len(),
            next_ws(s@, i as int) == next_ws(s@, j as int),
        decreases n - j,
    {
        j = j + 1;
    }
    proof {
        lemma_next_ws(s@, j as int);
    }
    j
}

/// Two-digit decimal value, executable.
pub fn read_num2(s: &str, n: usize, i: usize) -> (r: u32)
    requires
        n == s@.len(),
        i + 2 <= n,
        is_digit(s@[i as int]),
        is_digit(s@[i as int + 1]),
    ensures
        r == num2(s@, i as int),
        r <= 99,
{
    let a = s.get_char(i) as u32 - 48;
    let b = s.get_char(i + 1) as u32 - 48;
    a * 10 + b
}

/// Four-digit decimal value, executable.
pub fn read_num4(s: &str, n: usize, i: usize) -> (r: u32)
    requires
        n == s@.len(),
        i + 4 <= n,
        is_digit(s@[i as int]),
        is_digit(s@[i as int + 1]),
        is_digit(s@[i as int + 2]),
        is_digit(s@[i as int + 3]),
    ensures
        r == num4(s@, i as int),
        r <= 9999,
{
    let a = s.get_char(i) as u32 - 48;
    let b = s.get_char(i + 1) as u32 - 48;
    let c = s.get_char(i + 2) as u32 - 48;
    let d = s.get_char(i + 3) as u32 - 48;
    ((a * 10 + b) * 10 + c) * 10 + d
}

pub open spec fn digit_char(d: int) -> char {
    if d == 0 {
        '0'
    } else if d == 1 {
        '1'
    } else if d == 2 {
        '2'
    } else if d == 3 {
        '3'
    } else if d == 4 {
        '4'
    } else if d == 5 {
        '5'
    } else if d == 6 {
        '6'
    } else if d == 7 {
        '7'
    } else if d == 8 {
        '8'
    } else {
        '9'
    }
}

/// Two-digit zero-padded decimal rendering.
pub open spec fn pad2(n: int) -> Seq<char> {
    seq![digit_char(n / 10), digit_char(n % 10)]
}

/// Four-digit zero-padded decimal rendering.
pub open spec fn pad4(n: int) -> Seq<char> {
    seq![
        digit_char(n / 1000),
        digit_char((n / 100) % 10),
        digit_char((n / 10) % 10),
        digit_char(n % 10),
    ]
}

/// Unpadded decimal rendering of a number below ten thousand.
pub open spec fn dec_seq(n: int) -> Seq<char> {
    if n < 10 {
        seq![digit_char(n)]
    } else if n < 100 {
        pad2(n)
    } else if n < 1000 {
        seq![digit_char(n / 100), digit_char((n / 10) % 10), digit_char(n % 10)]
    } else {
        pad4(n)
    }
}

/// One-character string for a decimal digit.
pub fn digit_str(d: u32) -> (r: &'static str)
    requires
        d <= 9,
    ensures
        r@ =~= seq![digit_char(d as int)],
{
    proof {
        reveal_strlit("0");
        reveal_strlit("1");
        reveal_strlit("2");
        reveal_strlit("3");
        reveal_strlit("4");
        reveal_strlit("5");
        reveal_strlit("6");
        reveal_strlit("7");
        reveal_strlit("8");
        reveal_strlit("9");
    }
    if d == 0 {
        "0"
    } else if d == 1 {
        "1"
    } else if d == 2 {
        "2"
    } else if d == 3 {
        "3"
    } else if d == 4 {
        "4"
    } else if d == 5 {
        "5"
    } else if d == 6 {
        "6"
    } else if d == 7 {
        "7"
    } else if d == 8 {
        "8"
    } else {
        "9"
    }
}

/// Append the two-digit zero-padded rendering of `v`.
pub fn push_pad2(out: &mut String, v: u32)
    requires
        v <= 99,
    ensures
        final(out)@ == old(out)@ + pad2(v as int),
{
    let ghost pre = out@;
    out.append(digit_str(v / 10));
    out.append(digit_str(v % 10));
    assert(out@ =~= pre + pad2(v as int));
}

/// Append the four-digit zero-padded rendering of `v`.
pub fn push_pad4(out: &mut String, v: u32)
    requires
        v <= 9999,
    ensures
        final(out)@ == old(out)@ + pad4(v as int),
{
    let ghost pre = out@;
    out.append(digit_str(v / 1000));
    out.append(digit_str((v / 100) % 10));
    out.append(digit_str((v / 10) % 10));
    out.append(digit_str(v % 10));
    assert(out@ =~= pre + pad4(v as int));
}

/// Append the unpadded decimal rendering of `v`.
pub fn push_dec(out: &mut String, v: u32)
    requires
        v <= 9999,
    ensures
        final(out)@ == old(out)@ + dec_seq(v as int),
{
    let ghost pre = out@;
    if v < 10 {
        out.append(digit_str(v));
        assert(out@ =~= pre + dec_seq(v as int));
    } else if v < 100 {
        push_pad2(out, v);
    } else if v < 1000 {
        out.append(digit_str(v / 100));
        out.append(digit_str((v / 10) % 10));
        out.append(digit_str(v % 10));
        assert(out@ =~= pre + dec_seq(v as int));
    } else {
        push_pad4(out, v);
    }
}

} // verus!
