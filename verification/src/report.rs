//! The summary builder: a pure transform from a finalized analyzer state to
//! an exportable summary, with fixed `YYYY-MM-DD HH:MM:SS` rendering, the
//! top error messages ranked by count descending then message ascending and
//! truncated to ten, and the timeline in ascending bucket order.

use vstd::prelude::*;

use crate::analyze::{err_map, err_unique, tl_map, tl_sorted, Analyzer, AnalyzerV, Filters};
use crate::model::{ts_key, ts_valid, Timestamp};
use crate::text::{pad2, pad4};

verus! {

// ---------------------------------------------------------------------------
// Fixed-format rendering
// ---------------------------------------------------------------------------
/// `YYYY-MM-DD HH:MM:SS`: 24-hour, zero-padded, no fraction, no timezone.
pub open spec fn fmt_ts(t: Timestamp) -> Seq<char> {
    pad4(t.year as int) + seq!['-'] + pad2(t.month as int) + seq!['-'] + pad2(t.day as int)
        + seq![' '] + pad2(t.hour as int) + seq![':'] + pad2(t.minute as int) + seq![':'] + pad2(
        t.second as int,
    )
}

pub fn format_ts(t: &Timestamp) -> (r: String)
    requires
        ts_valid(*t),
    ensures
        r@ == fmt_ts(*t),
{
    let mut out = String::new();
    crate::text::push_pad4(&mut out, t.year);
    out.append("-");
    crate::text::push_pad2(&mut out, t.month);
    out.append("-");
    crate::text::push_pad2(&mut out, t.day);
    out.append(" ");
    crate::text::push_pad2(&mut out, t.hour);
    out.append(":");
    crate::text::push_pad2(&mut out, t.minute);
    out.append(":");
    crate::text::push_pad2(&mut out, t.second);
    proof {
        reveal_strlit("-");
        reveal_strlit(" ");
        reveal_strlit(":");
        assert("-"@ =~= seq!['-']);
        assert(" "@ =~= seq![' ']);
        assert(":"@ =~= seq![':']);
        assert(out@ =~= fmt_ts(*t));
    }
    out
}

// ---------------------------------------------------------------------------
// The top-error order
// ---------------------------------------------------------------------------
/// Lexicographic order on character sequences, by code point.
pub open spec fn lex_lt(a: Seq<char>, b: Seq<char>) -> bool
    decreases a.len(),
{
    if b.len() == 0 {
        false
    } else if a.len() == 0 {
        true
    } else if (a[0] as int) < (b[0] as int) {
        true
    } else if a[0] == b[0] {
        lex_lt(a.drop_first(), b.drop_first())
    } else {
        false
    }
}

proof fn lemma_lex_lt_asym(a: Seq<char>, b: Seq<char>)
    requires
        lex_lt(a, b),
    ensures
        !lex_lt(b, a),
    decreases a.len(),
{
    if b.len() > 0 && a.len() > 0 && a[0] == b[0] {
        lemma_lex_lt_asym(a.drop_first(), b.drop_first());
    }
}

proof fn lemma_lex_eq(a: Seq<char>, b: Seq<char>)
    requires
        !lex_lt(a, b),
        !lex_lt(b, a),
    ensures
        a == b,
    decreases a.len(),
{
    if b.len() == 0 {
        assert(a.len() == 0);
        assert(a =~= b);
    } else if a.len() == 0 {
        assert(false);
    } else {
        assert(a[0] == b[0]);
        lemma_lex_eq(a.drop_first(), b.drop_first());
        assert(a.drop_first().len() == b.drop_first().len());
        assert forall|i: int| 0 <= i < a.len() implies a[i] == b[i] by {
            if i > 0 {
                assert(a[i] == a.drop_first()[i - 1]);
                assert(b[i] == b.drop_first()[i - 1]);
            }
        }
        assert(a =~= b);
    }
}

proof fn lemma_lex_lt_total(a: Seq<char>, b: Seq<char>)
    requires
        a != b,
    ensures
        lex_lt(a, b) || lex_lt(b, a),
{
    if !lex_lt(a, b) && !lex_lt(b, a) {
        lemma_lex_eq(a, b);
    }
}

proof fn lemma_lex_lt_trans(a: Seq<char>, b: Seq<char>, c: Seq<char>)
    requires
        lex_lt(a, b),
        lex_lt(b, c),
    ensures
        lex_lt(a, c),
    decreases a.len(),
{
    if a.len() > 0 && b.len() > 0 && c.len() > 0 && a[0] == b[0] && b[0] == c[0] {
        lemma_lex_lt_trans(a.drop_first(), b.drop_first(), c.drop_first());
    }
}

/// The ranking of the top-error report: count descending, then message
/// ascending. A strict total order on entries with distinct messages: of
/// two distinct messages with equal counts, the lexicographically smaller
/// sorts first.
pub open spec fn err_entry_lt(a: (Seq<char>, int), b: (Seq<char>, int)) -> bool {
    a.1 > b.1 || (a.1 == b.1 && lex_lt(a.0, b.0))
}

/// The top-error order is total: two entries with distinct messages are
/// strictly ordered, one way exactly.
pub proof fn lemma_err_order_total(a: (Seq<char>, int), b: (Seq<char>, int))
    requires
        a.0 != b.0,
    ensures
        err_entry_lt(a, b) <==> !err_entry_lt(b, a),
{
    if a.1 == b.1 {
        lemma_lex_lt_total(a.0, b.0);
        if lex_lt(a.0, b.0) {
            lemma_lex_lt_asym(a.0, b.0);
        }
        if lex_lt(b.0, a.0) {
            lemma_lex_lt_asym(b.0, a.0);
        }
    }
}

proof fn lemma_err_order_trans(a: (Seq<char>, int), b: (Seq<char>, int), c: (Seq<char>, int))
    requires
        err_entry_lt(a, b),
        err_entry_lt(b, c),
    ensures
        err_entry_lt(a, c),
{
    if a.1 == b.1 && b.1 == c.1 {
        lemma_lex_lt_trans(a.0, b.0, c.0);
    }
}

/// Executable lexicographic comparison.
fn str_lt(a: &str, b: &str) -> (r: bool)
    ensures
        r == lex_lt(a@, b@),
{
    let na = a.unicode_len();
    let nb = b.unicode_len();
    let mut i: usize = 0;
    proof {
        assert(a@.skip(0) =~= a@);
        assert(b@.skip(0) =~= b@);
    }
    loop
        invariant
            i <= na,
            i <= nb,
            na == a@.len(),
            nb == b@.len(),
            lex_lt(a@, b@) == lex_lt(a@.skip(i as int), b@.skip(i as int)),
        decreases na - i,
    {
        proof {
            assert(a@.skip(i as int).len() == na - i);
            assert(b@.skip(i as int).len() == nb - i);
        }
        if i >= nb {
            return false;
        }
        if i >= na {
            return true;
        }
        let ca = a.get_char(i);
        let cb = b.get_char(i);
        proof {
            assert(a@.skip(i as int)[0] == a@[i as int]);
            assert(b@.skip(i as int)[0] == b@[i as int]);
            assert(a@.skip(i as int).drop_first() =~= a@.skip(i as int + 1));
            assert(b@.skip(i as int).drop_first() =~= b@.skip(i as int + 1));
        }
        if (ca as u32) < (cb as u32) {
            return true;
        }
        if ca != cb {
            return false;
        }
        i = i + 1;
    }
}

/// The view of an error table as order entries.
pub open spec fn ev(s: Seq<(String, u64)>) -> Seq<(Seq<char>, int)> {
    s.map_values(|p: (String, u64)| (p.0@, p.1 as int))
}

/// Strictly sorted by the top-error order.
pub open spec fn sorted_errs(s: Seq<(Seq<char>, int)>) -> bool {
    forall|i: int, j: int| 0 <= i < j < s.len() ==> err_entry_lt(#[trigger] s[i], #[trigger] s[j])
}

/// `s` lists exactly the entries of the frequency map `m`, each message
/// once.
pub open spec fn entries_of(s: Seq<(Seq<char>, int)>, m: Map<Seq<char>, nat>) -> bool {
    &&& forall|i: int|
        0 <= i < s.len() ==> m.contains_key((#[trigger] s[i]).0) && m[s[i].0] == s[i].1
    &&& forall|k: Seq<char>|
        m.contains_key(k) ==> exists|i: int| 0 <= i < s.len() && (#[trigger] s[i]).0 == k
    &&& forall|i: int, j: int| 0 <= i < j < s.len() ==> (#[trigger] s[i]).0 != (#[trigger] s[j]).0
}

/// Executable entry comparison against a split-out pair.
fn pair_lt(a: &(String, u64), bmsg: &String, bcnt: u64) -> (r: bool)
    ensures
        r == err_entry_lt((a.0@, a.1 as int), (bmsg@, bcnt as int)),
{
    bcnt < a.1 || (a.1 == bcnt && str_lt(a.0.as_str(), bmsg.as_str()))
}

/// Sort the error table by the top-error order.
fn sort_errs(src: &Vec<(String, u64)>) -> (out: Vec<(String, u64)>)
    requires
        err_unique(src@),
    ensures
        sorted_errs(ev(out@)),
        entries_of(ev(out@), err_map(src@)),
{
    let mut out: Vec<(String, u64)> = Vec::new();
    let n = src.len();
    let mut idx: usize = 0;
    proof {
        assert(src@.take(0) =~= Seq::<(String, u64)>::empty());
        assert(err_map(src@.take(0)) =~= Map::<Seq<char>, nat>::empty());
    }
    while idx < n
        invariant
            idx <= n,
            n == src@.len(),
            err_unique(src@),
            sorted_errs(ev(out@)),
            entries_of(ev(out@), err_map(src@.take(idx as int))),
        decreases n - idx,
    {
        let msg = src[idx].0.clone();
        let cnt = src[idx].1;
        let ghost old_out = out@;
        let ghost m = err_map(src@.take(idx as int));
        let ghost newe = (msg@, cnt as int);
        proof {
            crate::analyze::lemma_err_map_take_step(src@, idx as int);
        }
        let olen = out.len();
        let mut pos: usize = 0;
        while pos < olen && pair_lt(&out[pos], &msg, cnt)
            invariant
                pos <= olen,
                olen == out@.len(),
                out@ == old_out,
                forall|j: int|
                    0 <= j < pos ==> err_entry_lt(#[trigger] ev(out@)[j], (msg@, cnt as int)),
            decreases olen - pos,
        {
            proof {
                assert(ev(out@)[pos as int] == (out@[pos as int].0@, out@[pos as int].1 as int));
            }
            pos = pos + 1;
        }
        proof {
            assert(forall|j: int|
                0 <= j < ev(out@).len() ==> (#[trigger] ev(out@)[j]).0 != newe.0) by {
                assert forall|j: int|
                    0 <= j < ev(out@).len() implies (#[trigger] ev(out@)[j]).0 != newe.0 by {
                    assert(m.contains_key(ev(out@)[j].0));
                }
            };
            if pos < olen {
                assert(ev(out@)[pos as int] == (out@[pos as int].0@, out@[pos as int].1 as int));
                lemma_err_order_total(ev(out@)[pos as int], newe);
            }
        }
        out.insert(pos, (msg, cnt));
        proof {
            let s2 = ev(out@);
            assert(s2 =~= ev(old_out).insert(pos as int, newe)) by {
                assert(out@ =~= old_out.insert(pos as int, (out@[pos as int].0, cnt)));
                assert forall|j: int| 0 <= j < s2.len() implies s2[j] == ev(old_out).insert(
                    pos as int,
                    newe,
                )[j] by {
                    assert(s2[j] == (out@[j].0@, out@[j].1 as int));
                    if j < pos {
                        assert(ev(old_out)[j] == (old_out[j].0@, old_out[j].1 as int));
                    } else if j > pos {
                        assert(ev(old_out)[j - 1] == (old_out[j - 1].0@, old_out[j - 1].1
                            as int));
                    }
                }
            };
            assert(sorted_errs(s2)) by {
                assert forall|i: int, j: int| 0 <= i < j < s2.len() implies err_entry_lt(
                    #[trigger] s2[i],
                    #[trigger] s2[j],
                ) by {
                    let so = ev(old_out);
                    if i < pos && j < pos {
                    } else if i < pos && j == pos {
                        assert(s2[i] == so[i] && s2[j] == newe);
                    } else if i < pos && j > pos {
                        assert(s2[i] == so[i] && s2[j] == so[j - 1]);
                    } else if i == pos {
                        assert(s2[i] == newe && s2[j] == so[j - 1]);
                        if j - 1 > pos as int - 1 && j - 1 >= pos {
                            if j - 1 == pos {
                                if pos < old_out.len() {
                                    lemma_err_order_total(so[pos as int], newe);
                                }
                            } else {
                                if pos < old_out.len() {
                                    lemma_err_order_total(so[pos as int], newe);
                                    lemma_err_order_trans(newe, so[pos as int], so[j - 1]);
                                }
                            }
                        }
                    } else {
                        assert(s2[i] == so[i - 1] && s2[j] == so[j - 1]);
                    }
                }
            };
            assert(entries_of(s2, err_map(src@.take(idx as int + 1)))) by {
                let m2 = err_map(src@.take(idx as int + 1));
                assert(m2 =~= m.insert(newe.0, cnt as nat));
                assert forall|i: int|
                    0 <= i < s2.len() implies m2.contains_key((#[trigger] s2[i]).0)
                    && m2[s2[i].0] == s2[i].1 by {
                    if i != pos {
                        let iold: int = if i < pos {
                            i
                        } else {
                            i - 1
                        };
                        assert(s2[i] == ev(old_out)[iold]);
                    }
                };
                assert forall|k: Seq<char>| m2.contains_key(k) implies exists|i: int|
                    0 <= i < s2.len() && (#[trigger] s2[i]).0 == k by {
                    if k == newe.0 {
                        assert(s2[pos as int].0 == k);
                    } else {
                        assert(m.contains_key(k));
                        let i = choose|i: int|
                            0 <= i < ev(old_out).len() && (#[trigger] ev(old_out)[i]).0 == k;
                        if i < pos {
                            assert(s2[i].0 == k);
                        } else {
                            assert(s2[i + 1].0 == k);
                        }
                    }
                };
            };
        }
        idx = idx + 1;
    }
    proof {
        assert(src@.take(n as int) =~= src@);
    }
    out
}

// ---------------------------------------------------------------------------
// The summary
// ---------------------------------------------------------------------------
/// Per-level counts.
#[derive(Clone, Debug)]
pub struct Counts {
    pub info: u64,
    pub warning: u64,
    pub error: u64,
}

/// The exportable summary, derived once from a finalized analyzer state.
/// Timeline buckets are rendered in a fixed naive format for portability.
#[derive(Clone, Debug)]
pub struct JsonSummary {
    pub total_entries: u64,
    pub counts: Counts,
    pub malformed_lines: u64,
    pub first_log: Option<String>,
    pub last_log: Option<String>,
    pub common_errors: Vec<(String, u64)>,
    pub timeline: Vec<(String, u64)>,
}

/// Model of `JsonSummary`: every text as a character sequence.
#[verifier::ext_equal]
pub struct SummaryV {
    pub total: int,
    pub info: int,
    pub warning: int,
    pub error: int,
    pub malformed: int,
    pub first: Option<Seq<char>>,
    pub last: Option<Seq<char>>,
    pub common_errors: Seq<(Seq<char>, int)>,
    pub timeline: Seq<(Seq<char>, int)>,
}

impl View for JsonSummary {
    type V = SummaryV;

    open spec fn view(&self) -> SummaryV {
        SummaryV {
            total: self.total_entries as int,
            info: self.counts.info as int,
            warning: self.counts.warning as int,
            error: self.counts.error as int,
            malformed: self.malformed_lines as int,
            first: match self.first_log {
                Some(ref s) => Some(s@),
                None => None,
            },
            last: match self.last_log {
                Some(ref s) => Some(s@),
                None => None,
            },
            common_errors: ev(self.common_errors@),
            timeline: ev_tl(self.timeline@),
        }
    }
}

/// The view of a rendered timeline as (text, count) entries.
pub open spec fn ev_tl(s: Seq<(String, u64)>) -> Seq<(Seq<char>, int)> {
    s.map_values(|p: (String, u64)| (p.0@, p.1 as int))
}

/// `keys` lists exactly the keys of the bucket map, in strictly ascending
/// order.
pub open spec fn tl_keys_of(keys: Seq<Timestamp>, m: Map<Timestamp, nat>) -> bool {
    &&& forall|i: int, j: int|
        0 <= i < j < keys.len() ==> ts_key(#[trigger] keys[i]) < ts_key(#[trigger] keys[j])
    &&& forall|i: int| 0 <= i < keys.len() ==> m.contains_key(#[trigger] keys[i])
    &&& forall|k: Timestamp|
        m.contains_key(k) ==> exists|i: int| 0 <= i < keys.len() && #[trigger] keys[i] == k
}

pub open spec fn min_i(a: int, b: int) -> int {
    if a <= b {
        a
    } else {
        b
    }
}

/// What `build_summary` promises of its result, relative to the analyzer
/// state: counts copied exactly, bounds rendered in the fixed format, the
/// top errors a sorted listing of the frequency map truncated to ten, and
/// the timeline the rendered bucket map in ascending key order.
pub open spec fn spec_summary_of(s: SummaryV, v: AnalyzerV) -> bool {
    &&& s.total == v.records()
    &&& s.info == v.info && s.warning == v.warning && s.error == v.error
    &&& s.malformed == v.malformed
    &&& (match (s.first, v.first) {
        (None, None) => true,
        (Some(txt), Some(t)) => txt == fmt_ts(t),
        _ => false,
    })
    &&& (match (s.last, v.last) {
        (None, None) => true,
        (Some(txt), Some(t)) => txt == fmt_ts(t),
        _ => false,
    })
    &&& (exists|full: Seq<(Seq<char>, int)>|
        {
            &&& sorted_errs(full)
            &&& entries_of(full, v.errors)
            &&& s.common_errors == #[trigger] full.take(min_i(10, full.len() as int))
        })
    &&& (exists|keys: Seq<Timestamp>|
        {
            &&& #[trigger] tl_keys_of(keys, v.timeline)
            &&& s.timeline.len() == keys.len()
            &&& forall|i: int|
                0 <= i < keys.len() ==> #[trigger] s.timeline[i] == (
                    fmt_ts(keys[i]),
                    v.timeline[keys[i]] as int,
                )
        })
}

/// Derive the exportable summary from a finalized analyzer state. The
/// filters are passed through but deliberately not applied: the summary
/// reflects the unfiltered input. Deterministic and idempotent: the result
/// is a function of the state alone.
pub fn build_summary(an: &Analyzer, _filters: &Filters) -> (r: JsonSummary)
    requires
        an.wf(),
    ensures
        spec_summary_of(r@, an@),
        r@.common_errors.len() <= 10,
{
    let total = an.info + an.warning + an.error;
    let mut errs = sort_errs(&an.error_messages);
    let ghost full = ev(errs@);
    if errs.len() > 10 {
        errs.truncate(10);
        proof {
            assert(ev(errs@) =~= full.take(min_i(10, full.len() as int)));
        }
    } else {
        proof {
            assert(ev(errs@) =~= full.take(min_i(10, full.len() as int)));
        }
    }
    let mut timeline: Vec<(String, u64)> = Vec::new();
    let n = an.timeline.len();
    let mut i: usize = 0;
    let ghost keys = Seq::new(an.timeline@.len(), |j: int| an.timeline@[j].0);
    while i < n
        invariant
            i <= n,
            n == an.timeline@.len(),
            an.wf(),
            keys == Seq::new(an.timeline@.len(), |j: int| an.timeline@[j].0),
            timeline@.len() == i,
            forall|j: int|
                0 <= j < i ==> #[trigger] ev_tl(timeline@)[j] == (
                    fmt_ts(keys[j]),
                    tl_map(an.timeline@)[keys[j]] as int,
                ),
        decreases n - i,
    {
        let pair = an.timeline[i];
        let txt = format_ts(&pair.0);
        let ghost tl0 = timeline@;
        timeline.push((txt, pair.1));
        proof {
            crate::analyze::lemma_tl_map_at(an.timeline@, i as int);
            assert(ev_tl(timeline@)[i as int] == (
                fmt_ts(keys[i as int]),
                tl_map(an.timeline@)[keys[i as int]] as int,
            ));
            assert forall|j: int| 0 <= j < i implies #[trigger] ev_tl(timeline@)[j] == (
                fmt_ts(keys[j]),
                tl_map(an.timeline@)[keys[j]] as int,
            ) by {
                assert(timeline@[j] == tl0[j]);
                assert(ev_tl(timeline@)[j] == (timeline@[j].0@, timeline@[j].1 as int));
                assert(ev_tl(tl0)[j] == (tl0[j].0@, tl0[j].1 as int));
            }
        }
        i = i + 1;
    }
    let first_log = match an.first {
        Some(t) => Some(format_ts(&t)),
        None => None,
    };
    let last_log = match an.last {
        Some(t) => Some(format_ts(&t)),
        None => None,
    };
    let r = JsonSummary {
        total_entries: total,
        counts: Counts { info: an.info, warning: an.warning, error: an.error },
        malformed_lines: an.malformed_lines,
        first_log,
        last_log,
        common_errors: errs,
        timeline,
    };
    proof {
        assert(tl_keys_of(keys, an@.timeline)) by {
            assert forall|k: Timestamp| an@.timeline.contains_key(k) implies exists|i: int|
                0 <= i < keys.len() && #[trigger] keys[i] == k by {
                let j = choose|j: int|
                    0 <= j < an.timeline@.len() && (#[trigger] an.timeline@[j]).0 == k;
                assert(keys[j] == k);
            }
        };
        assert(r@.timeline.len() == keys.len());
        assert(spec_summary_of(r@, an@));
    }
    r
}

// ---------------------------------------------------------------------------
// Determinism of the summary
// ---------------------------------------------------------------------------
proof fn lemma_entries_of_remove(s: Seq<(Seq<char>, int)>, m: Map<Seq<char>, nat>)
    requires
        entries_of(s, m),
        s.len() > 0,
    ensures
        entries_of(s.drop_first(), m.remove(s[0].0)),
{
    let s2 = s.drop_first();
    let m2 = m.remove(s[0].0);
    assert forall|k: Seq<char>| m2.contains_key(k) implies exists|i: int|
        0 <= i < s2.len() && (#[trigger] s2[i]).0 == k by {
        let i = choose|i: int| 0 <= i < s.len() && (#[trigger] s[i]).0 == k;
        assert(i != 0);
        assert(s2[i - 1].0 == k);
    }
    assert forall|i: int| 0 <= i < s2.len() implies m2.contains_key((#[trigger] s2[i]).0)
        && m2[s2[i].0] == s2[i].1 by {
        assert(s2[i] == s[i + 1]);
    }
}

/// Two sorted listings of the same frequency map are the same sequence.
proof fn lemma_sorted_entries_unique(
    s1: Seq<(Seq<char>, int)>,
    s2: Seq<(Seq<char>, int)>,
    m: Map<Seq<char>, nat>,
)
    requires
        sorted_errs(s1),
        entries_of(s1, m),
        sorted_errs(s2),
        entries_of(s2, m),
    ensures
        s1 == s2,
    decreases s1.len(),
{
    if s1.len() == 0 {
        if s2.len() > 0 {
            assert(m.contains_key(s2[0].0));
        }
        assert(s1 =~= s2);
    } else {
        assert(m.contains_key(s1[0].0));
        if s2.len() == 0 {
            assert(false);
        }
        assert(s1[0] == s2[0]) by {
            let j = choose|j: int| 0 <= j < s2.len() && (#[trigger] s2[j]).0 == s1[0].0;
            let i = choose|i: int| 0 <= i < s1.len() && (#[trigger] s1[i]).0 == s2[0].0;
            assert(s2[j].1 == m[s1[0].0] && s1[0].1 == m[s1[0].0]);
            assert(s1[i].1 == m[s2[0].0] && s2[0].1 == m[s2[0].0]);
            if j > 0 {
                assert(err_entry_lt(s2[0], s2[j]));
                if i > 0 {
                    assert(err_entry_lt(s1[0], s1[i]));
                    lemma_err_order_trans(s1[0], s1[i], s2[j]);
                    assert(err_entry_lt(s1[0], s1[0]));
                    lemma_err_order_total(s1[0], s2[0]);
                    assert(false);
                } else {
                    assert(s1[0] == (s2[0].0, s2[0].1));
                    assert(s1[0] =~= s2[0]);
                }
            } else {
                assert(s2[0] == (s1[0].0, s1[0].1));
                assert(s1[0] =~= s2[0]);
            }
        };
        lemma_entries_of_remove(s1, m);
        lemma_entries_of_remove(s2, m);
        lemma_sorted_entries_unique(s1.drop_first(), s2.drop_first(), m.remove(s1[0].0));
        assert(s1.drop_first().len() == s2.drop_first().len());
        assert forall|i: int| 0 <= i < s1.len() implies s1[i] == s2[i] by {
            if i > 0 {
                assert(s1[i] == s1.drop_first()[i - 1]);
                assert(s2[i] == s2.drop_first()[i - 1]);
            }
        }
        assert(s1 =~= s2);
    }
}

/// Two ascending key listings of the same bucket map are the same sequence.
proof fn lemma_tl_keys_unique(k1: Seq<Timestamp>, k2: Seq<Timestamp>, m: Map<Timestamp, nat>)
    requires
        tl_keys_of(k1, m),
        tl_keys_of(k2, m),
    ensures
        k1 == k2,
    decreases k1.len(),
{
    if k1.len() == 0 {
        if k2.len() > 0 {
            assert(m.contains_key(k2[0]));
        }
        assert(k1 =~= k2);
    } else {
        assert(m.contains_key(k1[0]));
        if k2.len() == 0 {
            assert(false);
        }
        assert(k1[0] == k2[0]) by {
            let j = choose|j: int| 0 <= j < k2.len() && #[trigger] k2[j] == k1[0];
            let i = choose|i: int| 0 <= i < k1.len() && #[trigger] k1[i] == k2[0];
            if j > 0 {
                assert(ts_key(k2[0]) < ts_key(k2[j]));
                if i > 0 {
                    assert(ts_key(k1[0]) < ts_key(k1[i]));
                    assert(false);
                }
            }
        };
        let m2 = m.remove(k1[0]);
        assert(tl_keys_of(k1.drop_first(), m2)) by {
            assert forall|k: Timestamp| m2.contains_key(k) implies exists|i: int|
                0 <= i < k1.drop_first().len() && #[trigger] k1.drop_first()[i] == k by {
                let i = choose|i: int| 0 <= i < k1.len() && #[trigger] k1[i] == k;
                assert(i != 0);
                assert(k1.drop_first()[i - 1] == k);
            }
            assert(forall|i: int|
                0 <= i < k1.drop_first().len() ==> #[trigger] k1.drop_first()[i] == k1[i + 1]);
        };
        assert(tl_keys_of(k2.drop_first(), m2)) by {
            assert forall|k: Timestamp| m2.contains_key(k) implies exists|i: int|
                0 <= i < k2.drop_first().len() && #[trigger] k2.drop_first()[i] == k by {
                let i = choose|i: int| 0 <= i < k2.len() && #[trigger] k2[i] == k;
                assert(i != 0);
                assert(k2.drop_first()[i - 1] == k);
            }
            assert(forall|i: int|
                0 <= i < k2.drop_first().len() ==> #[trigger] k2.drop_first()[i] == k2[i + 1]);
        };
        lemma_tl_keys_unique(k1.drop_first(), k2.drop_first(), m2);
        assert(k1.drop_first().len() == k2.drop_first().len());
        assert forall|i: int| 0 <= i < k1.len() implies k1[i] == k2[i] by {
            if i > 0 {
                assert(k1[i] == k1.drop_first()[i - 1]);
                assert(k2[i] == k2.drop_first()[i - 1]);
            }
        }
        assert(k1 =~= k2);
    }
}

/// The summary is a function of the state: two summaries that both satisfy
/// the builder's contract for the same state agree in every field.
pub proof fn lemma_summary_unique(s1: SummaryV, s2: SummaryV, v: AnalyzerV)
    requires
        spec_summary_of(s1, v),
        spec_summary_of(s2, v),
    ensures
        s1 == s2,
{
    let full1 = choose|full: Seq<(Seq<char>, int)>|
        {
            &&& sorted_errs(full)
            &&& entries_of(full, v.errors)
            &&& s1.common_errors == #[trigger] full.take(min_i(10, full.len() as int))
        };
    let full2 = choose|full: Seq<(Seq<char>, int)>|
        {
            &&& sorted_errs(full)
            &&& entries_of(full, v.errors)
            &&& s2.common_errors == #[trigger] full.take(min_i(10, full.len() as int))
        };
    lemma_sorted_entries_unique(full1, full2, v.errors);
    let keys1 = choose|keys: Seq<Timestamp>|
        {
            &&& #[trigger] tl_keys_of(keys, v.timeline)
            &&& s1.timeline.len() == keys.len()
            &&& forall|i: int|
                0 <= i < keys.len() ==> #[trigger] s1.timeline[i] == (
                    fmt_ts(keys[i]),
                    v.timeline[keys[i]] as int,
                )
        };
    let keys2 = choose|keys: Seq<Timestamp>|
        {
            &&& #[trigger] tl_keys_of(keys, v.timeline)
            &&& s2.timeline.len() == keys.len()
            &&& forall|i: int|
                0 <= i < keys.len() ==> #[trigger] s2.timeline[i] == (
                    fmt_ts(keys[i]),
                    v.timeline[keys[i]] as int,
                )
        };
    lemma_tl_keys_unique(keys1, keys2, v.timeline);
    assert(s1.timeline =~= s2.timeline);
    assert(s1 =~= s2);
}

/// The merge law, finalized: analyzing two outcome sequences separately,
/// merging the states and building the summary gives the same summary as
/// analyzing the concatenation, in either order.
pub proof fn lemma_merge_law(
    g: crate::analyze::Granularity,
    o1: Seq<crate::parse::LineSpec>,
    o2: Seq<crate::parse::LineSpec>,
    s_m: SummaryV,
    s_c: SummaryV,
    s_r: SummaryV,
)
    requires
        crate::analyze::outs_valid(o1),
        crate::analyze::outs_valid(o2),
        spec_summary_of(
            s_m,
            crate::analyze::spec_merge(
                crate::analyze::spec_fold(crate::analyze::init_state(g), o1),
                crate::analyze::spec_fold(crate::analyze::init_state(g), o2),
            ),
        ),
        spec_summary_of(s_c, crate::analyze::spec_fold(crate::analyze::init_state(g), o1 + o2)),
        spec_summary_of(s_r, crate::analyze::spec_fold(crate::analyze::init_state(g), o2 + o1)),
    ensures
        s_m == s_c,
        s_m == s_r,
{
    crate::analyze::lemma_fold_split(g, o1, o2);
    lemma_summary_unique(
        s_m,
        s_c,
        crate::analyze::spec_fold(crate::analyze::init_state(g), o1 + o2),
    );
    lemma_summary_unique(
        s_m,
        s_r,
        crate::analyze::spec_fold(crate::analyze::init_state(g), o2 + o1),
    );
}

} // verus!
