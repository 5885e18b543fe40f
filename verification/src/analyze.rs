//! The streaming analyzer: consumes parsed records (or malformed-line
//! signals) one at a time and maintains running aggregates, first/last
//! bounds, a time-bucketed histogram, and an error-message frequency map,
//! without retaining the records.

use vstd::prelude::*;

use crate::model::{
    lemma_ts_key_injective, ts_key, ts_max, ts_min, ts_valid, EntryV, Level, LogEntry, Timestamp,
};
use crate::parse::{head_ts, ts_head, LineSpec, LogParser};
use crate::text::{contains_str, contains_sub, is_digit, lower_of, lowercase, num2, num4};

verus! {

/// Width of a histogram bucket.
#[derive(Clone, Copy, Debug, PartialEq, Eq, Structural)]
pub enum Granularity {
    Minute,
    Hour,
    Day,
}

impl Default for Granularity {
    fn default() -> (r: Self)
        ensures
            r == Granularity::Hour,
    {
        Granularity::Hour
    }
}

/// A record's timestamp truncated downward to the start of its bucket:
/// Minute zeroes the seconds, Hour also the minutes, Day the whole time of
/// day.
pub open spec fn bucket_spec(t: Timestamp, g: Granularity) -> Timestamp {
    match g {
        Granularity::Minute => Timestamp { second: 0, ..t },
        Granularity::Hour => Timestamp { second: 0, minute: 0, ..t },
        Granularity::Day => Timestamp { second: 0, minute: 0, hour: 0, ..t },
    }
}

/// Bucketing is idempotent: a bucket start is its own bucket.
pub proof fn lemma_bucket_idempotent(t: Timestamp, g: Granularity)
    ensures
        bucket_spec(bucket_spec(t, g), g) == bucket_spec(t, g),
{
}

/// Bucketing is monotonic in the timestamp order.
pub proof fn lemma_bucket_monotonic(t1: Timestamp, t2: Timestamp, g: Granularity)
    requires
        ts_valid(t1),
        ts_valid(t2),
        ts_key(t1) <= ts_key(t2),
    ensures
        ts_key(bucket_spec(t1, g)) <= ts_key(bucket_spec(t2, g)),
{
}

/// A valid timestamp's bucket start is valid.
pub proof fn lemma_bucket_valid(t: Timestamp, g: Granularity)
    requires
        ts_valid(t),
    ensures
        ts_valid(bucket_spec(t, g)),
{
}

// ---------------------------------------------------------------------------
// The mathematical model of the analyzer state
// ---------------------------------------------------------------------------
/// Model of `Analyzer`: exact counters and the two frequency maps as
/// mathematical maps.
#[verifier::ext_equal]
pub struct AnalyzerV {
    pub granularity: Granularity,
    pub info: nat,
    pub warning: nat,
    pub error: nat,
    pub malformed: nat,
    pub first: Option<Timestamp>,
    pub last: Option<Timestamp>,
    pub timeline: Map<Timestamp, nat>,
    pub errors: Map<Seq<char>, nat>,
}

impl AnalyzerV {
    /// Records consumed: the sum of the per-level counts.
    pub open spec fn records(self) -> nat {
        self.info + self.warning + self.error
    }

    /// Lines seen: records plus malformed lines.
    pub open spec fn total(self) -> nat {
        self.records() + self.malformed
    }
}

/// The empty state at a granularity.
pub open spec fn init_state(g: Granularity) -> AnalyzerV {
    AnalyzerV {
        granularity: g,
        info: 0,
        warning: 0,
        error: 0,
        malformed: 0,
        first: None,
        last: None,
        timeline: Map::empty(),
        errors: Map::empty(),
    }
}

pub open spec fn getc<K>(m: Map<K, nat>, k: K) -> nat {
    if m.contains_key(k) {
        m[k]
    } else {
        0
    }
}

/// One occurrence added at a key.
pub open spec fn bump<K>(m: Map<K, nat>, k: K) -> Map<K, nat> {
    m.insert(k, getc(m, k) + 1)
}

/// Pointwise sum of two frequency maps.
pub open spec fn add_maps<K>(a: Map<K, nat>, b: Map<K, nat>) -> Map<K, nat> {
    Map::new(|k: K| a.contains_key(k) || b.contains_key(k), |k: K| getc(a, k) + getc(b, k))
}

pub open spec fn opt_min(a: Option<Timestamp>, b: Option<Timestamp>) -> Option<Timestamp> {
    match (a, b) {
        (Option::None, y) => y,
        (x, Option::None) => x,
        (Option::Some(x), Option::Some(y)) => Option::Some(ts_min(x, y)),
    }
}

pub open spec fn opt_max(a: Option<Timestamp>, b: Option<Timestamp>) -> Option<Timestamp> {
    match (a, b) {
        (Option::None, y) => y,
        (x, Option::None) => x,
        (Option::Some(x), Option::Some(y)) => Option::Some(ts_max(x, y)),
    }
}

/// Folding one record into the state: its level counter grows, the
/// first/last bounds extend, its bucket's count grows, and an Error-level
/// record feeds the message frequency map.
pub open spec fn spec_consume_entry(v: AnalyzerV, e: EntryV) -> AnalyzerV {
    AnalyzerV {
        granularity: v.granularity,
        info: v.info + (if e.level is Info {
            1nat
        } else {
            0nat
        }),
        warning: v.warning + (if e.level is Warning {
            1nat
        } else {
            0nat
        }),
        error: v.error + (if e.level is Error {
            1nat
        } else {
            0nat
        }),
        malformed: v.malformed,
        first: opt_min(v.first, Option::Some(e.ts)),
        last: opt_max(v.last, Option::Some(e.ts)),
        timeline: bump(v.timeline, bucket_spec(e.ts, v.granularity)),
        errors: if e.level is Error {
            bump(v.errors, e.message)
        } else {
            v.errors
        },
    }
}

/// Folding one parse outcome: a record is consumed, any failure counts as
/// one malformed line and changes nothing else.
pub open spec fn spec_consume_line(v: AnalyzerV, o: LineSpec) -> AnalyzerV {
    match o {
        LineSpec::Entry(e) => spec_consume_entry(v, e),
        LineSpec::NoMatch => AnalyzerV { malformed: v.malformed + 1, ..v },
        LineSpec::BadTs(_) => AnalyzerV { malformed: v.malformed + 1, ..v },
    }
}

/// Folding a whole sequence of parse outcomes, in order.
pub open spec fn spec_fold(v: AnalyzerV, outs: Seq<LineSpec>) -> AnalyzerV
    decreases outs.len(),
{
    if outs.len() == 0 {
        v
    } else {
        spec_fold(spec_consume_line(v, outs[0]), outs.drop_first())
    }
}

/// Pointwise merge of two states: sums of counters and maps, min/max of the
/// bounds.
pub open spec fn spec_merge(a: AnalyzerV, b: AnalyzerV) -> AnalyzerV {
    AnalyzerV {
        granularity: a.granularity,
        info: a.info + b.info,
        warning: a.warning + b.warning,
        error: a.error + b.error,
        malformed: a.malformed + b.malformed,
        first: opt_min(a.first, b.first),
        last: opt_max(a.last, b.last),
        timeline: add_maps(a.timeline, b.timeline),
        errors: add_maps(a.errors, b.errors),
    }
}

// ---------------------------------------------------------------------------
// Sequence-of-pairs views
// ---------------------------------------------------------------------------
/// The timeline is held as a vector of (bucket start, count) pairs; its
/// model is the frequency map.
pub open spec fn tl_has(s: Seq<(Timestamp, u64)>, k: Timestamp) -> bool {
    exists|i: int| 0 <= i < s.len() && (#[trigger] s[i]).0 == k
}

pub open spec fn tl_idx(s: Seq<(Timestamp, u64)>, k: Timestamp) -> int {
    choose|i: int| 0 <= i < s.len() && (#[trigger] s[i]).0 == k
}

pub open spec fn tl_map(s: Seq<(Timestamp, u64)>) -> Map<Timestamp, nat> {
    Map::new(|k: Timestamp| tl_has(s, k), |k: Timestamp| s[tl_idx(s, k)].1 as nat)
}

pub open spec fn tl_sum(s: Seq<(Timestamp, u64)>) -> int
    decreases s.len(),
{
    if s.len() == 0 {
        0
    } else {
        tl_sum(s.drop_last()) + s.last().1
    }
}

/// Strictly ascending bucket starts; this also makes the keys unique.
pub open spec fn tl_sorted(s: Seq<(Timestamp, u64)>) -> bool {
    forall|i: int, j: int|
        0 <= i < j < s.len() ==> ts_key((#[trigger] s[i]).0) < ts_key((#[trigger] s[j]).0)
}

/// The error-message table is held as a vector of (message, count) pairs
/// with pairwise distinct messages; its model is the frequency map keyed by
/// the message text.
pub open spec fn err_has(s: Seq<(String, u64)>, k: Seq<char>) -> bool {
    exists|i: int| 0 <= i < s.len() && (#[trigger] s[i]).0@ == k
}

pub open spec fn err_idx(s: Seq<(String, u64)>, k: Seq<char>) -> int {
    choose|i: int| 0 <= i < s.len() && (#[trigger] s[i]).0@ == k
}

pub open spec fn err_map(s: Seq<(String, u64)>) -> Map<Seq<char>, nat> {
    Map::new(|k: Seq<char>| err_has(s, k), |k: Seq<char>| s[err_idx(s, k)].1 as nat)
}

pub open spec fn err_sum(s: Seq<(String, u64)>) -> int
    decreases s.len(),
{
    if s.len() == 0 {
        0
    } else {
        err_sum(s.drop_last()) + s.last().1
    }
}

pub open spec fn err_unique(s: Seq<(String, u64)>) -> bool {
    forall|i: int, j: int|
        0 <= i < j < s.len() ==> (#[trigger] s[i]).0@ != (#[trigger] s[j]).0@
}

proof fn lemma_tl_sum_update(s: Seq<(Timestamp, u64)>, i: int, p: (Timestamp, u64))
    requires
        0 <= i < s.len(),
    ensures
        tl_sum(s.update(i, p)) == tl_sum(s) - s[i].1 + p.1,
    decreases s.len(),
{
    if i == s.len() - 1 {
        assert(s.update(i, p).drop_last() =~= s.drop_last());
    } else {
        assert(s.update(i, p).drop_last() =~= s.drop_last().update(i, p));
        lemma_tl_sum_update(s.drop_last(), i, p);
    }
}

proof fn lemma_tl_sum_insert(s: Seq<(Timestamp, u64)>, i: int, p: (Timestamp, u64))
    requires
        0 <= i <= s.len(),
    ensures
        tl_sum(s.insert(i, p)) == tl_sum(s) + p.1,
    decreases s.len(),
{
    if i == s.len() {
        assert(s.insert(i, p).drop_last() =~= s);
    } else {
        assert(s.insert(i, p).drop_last() =~= s.drop_last().insert(i, p));
        lemma_tl_sum_insert(s.drop_last(), i, p);
    }
}

proof fn lemma_tl_sum_entry(s: Seq<(Timestamp, u64)>, i: int)
    requires
        0 <= i < s.len(),
    ensures
        s[i].1 <= tl_sum(s),
    decreases s.len(),
{
    if i == s.len() - 1 {
        lemma_tl_sum_nonneg(s.drop_last());
    } else {
        lemma_tl_sum_entry(s.drop_last(), i);
    }
}

proof fn lemma_tl_sum_nonneg(s: Seq<(Timestamp, u64)>)
    ensures
        tl_sum(s) >= 0,
    decreases s.len(),
{
    if s.len() > 0 {
        lemma_tl_sum_nonneg(s.drop_last());
    }
}

proof fn lemma_err_sum_update(s: Seq<(String, u64)>, i: int, p: (String, u64))
    requires
        0 <= i < s.len(),
    ensures
        err_sum(s.update(i, p)) == err_sum(s) - s[i].1 + p.1,
    decreases s.len(),
{
    if i == s.len() - 1 {
        assert(s.update(i, p).drop_last() =~= s.drop_last());
    } else {
        assert(s.update(i, p).drop_last() =~= s.drop_last().update(i, p));
        lemma_err_sum_update(s.drop_last(), i, p);
    }
}

proof fn lemma_err_sum_push(s: Seq<(String, u64)>, p: (String, u64))
    ensures
        err_sum(s.push(p)) == err_sum(s) + p.1,
{
    assert(s.push(p).drop_last() =~= s);
}

proof fn lemma_err_sum_entry(s: Seq<(String, u64)>, i: int)
    requires
        0 <= i < s.len(),
    ensures
        s[i].1 <= err_sum(s),
    decreases s.len(),
{
    if i == s.len() - 1 {
        lemma_err_sum_nonneg(s.drop_last());
    } else {
        lemma_err_sum_entry(s.drop_last(), i);
    }
}

proof fn lemma_err_sum_nonneg(s: Seq<(String, u64)>)
    ensures
        err_sum(s) >= 0,
    decreases s.len(),
{
    if s.len() > 0 {
        lemma_err_sum_nonneg(s.drop_last());
    }
}

/// With unique keys, the map reads off any entry of the vector.
pub(crate) proof fn lemma_tl_map_at(s: Seq<(Timestamp, u64)>, i: int)
    requires
        tl_sorted(s),
        0 <= i < s.len(),
    ensures
        tl_map(s).contains_key(s[i].0),
        tl_map(s)[s[i].0] == s[i].1 as nat,
{
    assert(tl_has(s, s[i].0));
    let j = tl_idx(s, s[i].0);
    if i < j {
        assert(ts_key(s[i].0) < ts_key(s[j].0));
    } else if j < i {
        assert(ts_key(s[j].0) < ts_key(s[i].0));
    }
}

/// Bumping an existing entry updates the map at its key.
proof fn lemma_tl_map_update(s: Seq<(Timestamp, u64)>, i: int, c: u64)
    requires
        tl_sorted(s),
        0 <= i < s.len(),
    ensures
        tl_map(s.update(i, (s[i].0, c))) =~= tl_map(s).insert(s[i].0, c as nat),
{
    let k = s[i].0;
    let s2 = s.update(i, (k, c));
    assert(tl_sorted(s2));
    assert forall|x: Timestamp| tl_has(s2, x) <==> tl_has(s, x) by {
        if tl_has(s2, x) {
            let j = choose|j: int| 0 <= j < s2.len() && (#[trigger] s2[j]).0 == x;
            assert(s[j].0 == x);
        }
        if tl_has(s, x) {
            let j = choose|j: int| 0 <= j < s.len() && (#[trigger] s[j]).0 == x;
            assert(s2[j].0 == x);
        }
    }
    assert forall|x: Timestamp| tl_has(s2, x) implies s2[tl_idx(s2, x)].1 as nat == tl_map(
        s,
    ).insert(k, c as nat)[x] by {
        let j = tl_idx(s2, x);
        assert(0 <= j < s2.len() && s2[j].0 == x);
        if x == k {
            if i < j {
                assert(ts_key(s2[i].0) < ts_key(s2[j].0));
            } else if j < i {
                assert(ts_key(s2[j].0) < ts_key(s2[i].0));
            }
            assert(j == i);
        } else {
            assert(j != i);
            lemma_tl_map_at(s, j);
        }
    }
}

/// Inserting a fresh key at its sorted position adds it to the map.
proof fn lemma_tl_map_insert(s: Seq<(Timestamp, u64)>, i: int, k: Timestamp, c: u64)
    requires
        tl_sorted(s),
        0 <= i <= s.len(),
        !tl_has(s, k),
    ensures
        tl_map(s.insert(i, (k, c))) =~= tl_map(s).insert(k, c as nat),
{
    let s2 = s.insert(i, (k, c));
    assert forall|x: Timestamp| tl_has(s2, x) <==> (tl_has(s, x) || x == k) by {
        if tl_has(s2, x) {
            let j = choose|j: int| 0 <= j < s2.len() && (#[trigger] s2[j]).0 == x;
            if j < i {
                assert(s[j].0 == x);
            } else if j > i {
                assert(s[j - 1].0 == x);
            }
        }
        if tl_has(s, x) {
            let j = choose|j: int| 0 <= j < s.len() && (#[trigger] s[j]).0 == x;
            if j < i {
                assert(s2[j].0 == x);
            } else {
                assert(s2[j + 1].0 == x);
            }
        }
        assert(s2[i].0 == k);
    }
    assert forall|x: Timestamp| tl_has(s2, x) implies s2[tl_idx(s2, x)].1 as nat == tl_map(
        s,
    ).insert(k, c as nat)[x] by {
        let j = tl_idx(s2, x);
        assert(0 <= j < s2.len() && s2[j].0 == x);
        if x == k {
            if j < i {
                assert(s[j].0 == k);
                assert(tl_has(s, k));
            } else if j > i {
                assert(s[j - 1].0 == k);
                assert(tl_has(s, k));
            }
            assert(j == i);
        } else {
            assert(j != i);
            if j < i {
                assert(s[j].0 == x);
                lemma_tl_map_at_helper(s, j, x);
            } else {
                assert(s[j - 1].0 == x);
                lemma_tl_map_at_helper(s, j - 1, x);
            }
        }
    }
}

/// With unique keys every index holding `x` reads the same count.
proof fn lemma_tl_map_at_helper(s: Seq<(Timestamp, u64)>, i: int, x: Timestamp)
    requires
        tl_sorted(s),
        0 <= i < s.len(),
        s[i].0 == x,
    ensures
        tl_map(s).contains_key(x),
        tl_map(s)[x] == s[i].1 as nat,
{
    lemma_tl_map_at(s, i);
}

/// With unique messages, the map reads off any entry of the vector.
pub(crate) proof fn lemma_err_map_at(s: Seq<(String, u64)>, i: int)
    requires
        err_unique(s),
        0 <= i < s.len(),
    ensures
        err_map(s).contains_key(s[i].0@),
        err_map(s)[s[i].0@] == s[i].1 as nat,
{
    assert(err_has(s, s[i].0@));
    let j = err_idx(s, s[i].0@);
    assert(0 <= j < s.len() && s[j].0@ == s[i].0@);
    if i < j {
        assert(s[i].0@ != s[j].0@);
    } else if j < i {
        assert(s[j].0@ != s[i].0@);
    }
}

/// Bumping an existing entry updates the map at its message.
proof fn lemma_err_map_update(s: Seq<(String, u64)>, i: int, p: (String, u64))
    requires
        err_unique(s),
        0 <= i < s.len(),
        p.0@ == s[i].0@,
    ensures
        err_map(s.update(i, p)) =~= err_map(s).insert(s[i].0@, p.1 as nat),
{
    let k = s[i].0@;
    let s2 = s.update(i, p);
    assert(err_unique(s2));
    assert forall|x: Seq<char>| err_has(s2, x) <==> err_has(s, x) by {
        if err_has(s2, x) {
            let j = choose|j: int| 0 <= j < s2.len() && (#[trigger] s2[j]).0@ == x;
            assert(s[j].0@ == x || j == i);
            assert(err_has(s, x));
        }
        if err_has(s, x) {
            let j = choose|j: int| 0 <= j < s.len() && (#[trigger] s[j]).0@ == x;
            assert(s2[j].0@ == x);
        }
    }
    assert forall|x: Seq<char>| err_has(s2, x) implies s2[err_idx(s2, x)].1 as nat == err_map(
        s,
    ).insert(k, p.1 as nat)[x] by {
        let j = err_idx(s2, x);
        assert(0 <= j < s2.len() && s2[j].0@ == x);
        if x == k {
            if i < j {
                assert(s2[i].0@ != s2[j].0@);
            } else if j < i {
                assert(s2[j].0@ != s2[i].0@);
            }
            assert(j == i);
        } else {
            assert(j != i);
            lemma_err_map_at(s, j);
        }
    }
}

/// Appending a fresh message adds it to the map.
proof fn lemma_err_map_push(s: Seq<(String, u64)>, p: (String, u64))
    requires
        err_unique(s),
        !err_has(s, p.0@),
    ensures
        err_map(s.push(p)) =~= err_map(s).insert(p.0@, p.1 as nat),
        err_unique(s.push(p)),
{
    let s2 = s.push(p);
    assert forall|x: Seq<char>| err_has(s2, x) <==> (err_has(s, x) || x == p.0@) by {
        if err_has(s2, x) {
            let j = choose|j: int| 0 <= j < s2.len() && (#[trigger] s2[j]).0@ == x;
            if j < s.len() {
                assert(s[j].0@ == x);
            }
        }
        if err_has(s, x) {
            let j = choose|j: int| 0 <= j < s.len() && (#[trigger] s[j]).0@ == x;
            assert(s2[j].0@ == x);
        }
        assert(s2[s.len() as int].0@ == p.0@);
    }
    assert forall|i: int, j: int| 0 <= i < j < s2.len() implies s2[i].0@ != s2[j].0@ by {
        if j < s.len() {
        } else {
            assert(s2[j].0@ == p.0@);
            assert(s2[i].0@ == s[i].0@);
        }
    }
    assert forall|x: Seq<char>| err_has(s2, x) implies s2[err_idx(s2, x)].1 as nat == err_map(
        s,
    ).insert(p.0@, p.1 as nat)[x] by {
        let j = err_idx(s2, x);
        assert(0 <= j < s2.len() && s2[j].0@ == x);
        if x == p.0@ {
            if j < s.len() {
                assert(err_has(s, x));
            }
            assert(j == s.len());
        } else {
            assert(j != s.len());
            lemma_err_map_at(s, j);
        }
    }
}

// ---------------------------------------------------------------------------
// The analyzer
// ---------------------------------------------------------------------------
/// The streaming aggregator. The timeline vector is kept sorted by bucket
/// start; the error table keys are pairwise distinct.
pub struct Analyzer {
    pub granularity: Granularity,
    pub info: u64,
    pub warning: u64,
    pub error: u64,
    pub malformed_lines: u64,
    pub first: Option<Timestamp>,
    pub last: Option<Timestamp>,
    pub timeline: Vec<(Timestamp, u64)>,
    pub error_messages: Vec<(String, u64)>,
}

impl View for Analyzer {
    type V = AnalyzerV;

    open spec fn view(&self) -> AnalyzerV {
        AnalyzerV {
            granularity: self.granularity,
            info: self.info as nat,
            warning: self.warning as nat,
            error: self.error as nat,
            malformed: self.malformed_lines as nat,
            first: self.first,
            last: self.last,
            timeline: tl_map(self.timeline@),
            errors: err_map(self.error_messages@),
        }
    }
}

impl Analyzer {
    /// The state invariant: sorted timeline of valid bucket starts with
    /// positive counts summing to the records consumed; distinct error
    /// messages with positive counts summing to the Error count;
    /// first and last bounds present exactly when a record was consumed.
    pub open spec fn wf(&self) -> bool {
        &&& tl_sorted(self.timeline@)
        &&& forall|i: int|
            0 <= i < self.timeline@.len() ==> ts_valid((#[trigger] self.timeline@[i]).0)
                && self.timeline@[i].1 >= 1
        &&& err_unique(self.error_messages@)
        &&& forall|i: int|
            0 <= i < self.error_messages@.len() ==> (#[trigger] self.error_messages@[i]).1 >= 1
        &&& self.info + self.warning + self.error <= u64::MAX
        &&& tl_sum(self.timeline@) == self@.records()
        &&& err_sum(self.error_messages@) == self.error
        &&& (self.first is Some <==> self.last is Some)
        &&& (self.first is Some <==> self@.records() > 0)
        &&& (self.first is Some ==> ts_valid(self.first->Some_0) && ts_valid(self.last->Some_0)
            && ts_key(self.first->Some_0) <= ts_key(self.last->Some_0))
    }

    /// A fresh analyzer at a granularity.
    pub fn new(granularity: Granularity) -> (r: Self)
        ensures
            r.wf(),
            r@ == init_state(granularity),
    {
        let r = Analyzer {
            granularity,
            info: 0,
            warning: 0,
            error: 0,
            malformed_lines: 0,
            first: None,
            last: None,
            timeline: Vec::new(),
            error_messages: Vec::new(),
        };
        proof {
            assert(r@.timeline =~= Map::<Timestamp, nat>::empty());
            assert(r@.errors =~= Map::<Seq<char>, nat>::empty());
            assert(r@ =~= init_state(granularity));
        }
        r
    }

    /// The bucket start of a timestamp at this analyzer's granularity.
    pub fn bucket(&self, ts: Timestamp) -> (r: Timestamp)
        ensures
            r == bucket_spec(ts, self.granularity),
    {
        match self.granularity {
            Granularity::Minute => Timestamp { second: 0, ..ts },
            Granularity::Hour => Timestamp { second: 0, minute: 0, ..ts },
            Granularity::Day => Timestamp { second: 0, minute: 0, hour: 0, ..ts },
        }
    }

    /// Add `c` occurrences of the bucket start `k` to the timeline.
    #[verifier::rlimit(60)]
    fn tl_add(&mut self, k: Timestamp, c: u64)
        requires
            tl_sorted(old(self).timeline@),
            forall|i: int|
                0 <= i < old(self).timeline@.len() ==> ts_valid(
                    (#[trigger] old(self).timeline@[i]).0,
                ) && old(self).timeline@[i].1 >= 1,
            ts_valid(k),
            c >= 1,
            tl_sum(old(self).timeline@) + c <= u64::MAX,
        ensures
            tl_sorted(final(self).timeline@),
            forall|i: int|
                0 <= i < final(self).timeline@.len() ==> ts_valid(
                    (#[trigger] final(self).timeline@[i]).0,
                ) && final(self).timeline@[i].1 >= 1,
            tl_map(final(self).timeline@) == tl_map(old(self).timeline@).insert(
                k,
                getc(tl_map(old(self).timeline@), k) + c as nat,
            ),
            tl_sum(final(self).timeline@) == tl_sum(old(self).timeline@) + c,
            final(self).granularity == old(self).granularity,
            final(self).info == old(self).info,
            final(self).warning == old(self).warning,
            final(self).error == old(self).error,
            final(self).malformed_lines == old(self).malformed_lines,
            final(self).first == old(self).first,
            final(self).last == old(self).last,
            final(self).error_messages == old(self).error_messages,
    {
        let kk = k.key();
        let n = self.timeline.len();
        let mut i: usize = 0;
        while i < n && self.timeline[i].0.key() < kk
            invariant
                0 <= i <= n,
                n == self.timeline@.len(),
                *self == *old(self),
                forall|j: int|
                    0 <= j < n ==> ts_valid((#[trigger] self.timeline@[j]).0),
                ts_valid(k),
                kk == ts_key(k),
                forall|j: int| 0 <= j < i ==> ts_key((#[trigger] self.timeline@[j]).0) < ts_key(k),
            decreases n - i,
        {
            i = i + 1;
        }
        let ghost s = self.timeline@;
        if i < n && self.timeline[i].0.key() == kk {
            proof {
                lemma_ts_key_injective(self.timeline@[i as int].0, k);
                lemma_tl_sum_entry(s, i as int);
                lemma_tl_sum_nonneg(s);
            }
            let pair = self.timeline.remove(i);
            self.timeline.insert(i, (k, pair.1 + c));
            proof {
                assert(self.timeline@ =~= s.update(i as int, (k, (pair.1 + c) as u64)));
                lemma_tl_map_update(s, i as int, (pair.1 + c) as u64);
                lemma_tl_map_at(s, i as int);
                lemma_tl_sum_update(s, i as int, (k, (pair.1 + c) as u64));
                assert(tl_map(self.timeline@) =~= tl_map(s).insert(
                    k,
                    getc(tl_map(s), k) + c as nat,
                ));
            }
        } else {
            self.timeline.insert(i, (k, c));
            proof {
                assert(!tl_has(s, k)) by {
                    if tl_has(s, k) {
                        let j = choose|j: int| 0 <= j < s.len() && (#[trigger] s[j]).0 == k;
                        if j < i {
                            assert(ts_key(s[j].0) < ts_key(k));
                        } else {
                            assert(ts_key(s[i as int].0) <= ts_key(s[j].0));
                        }
                    }
                };
                lemma_tl_map_insert(s, i as int, k, c);
                lemma_tl_sum_insert(s, i as int, (k, c));
                assert(tl_sorted(self.timeline@)) by {
                    let s2 = self.timeline@;
                    assert forall|a: int, b: int| 0 <= a < b < s2.len() implies ts_key(
                        (#[trigger] s2[a]).0,
                    ) < ts_key((#[trigger] s2[b]).0) by {
                        if a < i && b > i {
                            assert(s2[a] == s[a] && s2[b] == s[b - 1]);
                        } else if b == i {
                            assert(s2[a] == s[a]);
                        } else if a == i {
                            assert(s2[b] == s[b - 1]);
                            assert(ts_key(s[i as int].0) <= ts_key(s[b - 1].0));
                        }
                    }
                };
                assert(tl_map(self.timeline@) =~= tl_map(s).insert(
                    k,
                    getc(tl_map(s), k) + c as nat,
                ));
            }
        }
    }

    /// Add `c` occurrences of the message `msg` to the error table.
    fn err_add(&mut self, msg: String, c: u64)
        requires
            err_unique(old(self).error_messages@),
            forall|i: int|
                0 <= i < old(self).error_messages@.len() ==> (#[trigger] old(
                    self,
                ).error_messages@[i]).1 >= 1,
            c >= 1,
            err_sum(old(self).error_messages@) + c <= u64::MAX,
        ensures
            err_unique(final(self).error_messages@),
            forall|i: int|
                0 <= i < final(self).error_messages@.len()
                    ==> (#[trigger] final(self).error_messages@[i]).1 >= 1,
            err_map(final(self).error_messages@) == err_map(old(self).error_messages@).insert(
                msg@,
                getc(err_map(old(self).error_messages@), msg@) + c as nat,
            ),
            err_sum(final(self).error_messages@) == err_sum(old(self).error_messages@) + c,
            final(self).granularity == old(self).granularity,
            final(self).info == old(self).info,
            final(self).warning == old(self).warning,
            final(self).error == old(self).error,
            final(self).malformed_lines == old(self).malformed_lines,
            final(self).first == old(self).first,
            final(self).last == old(self).last,
            final(self).timeline == old(self).timeline,
    {
        let n = self.error_messages.len();
        let mut i: usize = 0;
        while i < n && !self.error_messages[i].0.eq(&msg)
            invariant
                0 <= i <= n,
                n == self.error_messages@.len(),
                *self == *old(self),
                forall|j: int| 0 <= j < i ==> (#[trigger] self.error_messages@[j]).0@ != msg@,
            decreases n - i,
        {
            i = i + 1;
        }
        let ghost s = self.error_messages@;
        if i < n {
            proof {
                lemma_err_sum_entry(s, i as int);
                lemma_err_sum_nonneg(s);
                lemma_err_map_at(s, i as int);
            }
            let pair = self.error_messages.remove(i);
            let newc = pair.1 + c;
            self.error_messages.insert(i, (pair.0, newc));
            proof {
                assert(self.error_messages@ =~= s.update(i as int, (s[i as int].0, newc)));
                lemma_err_map_update(s, i as int, (s[i as int].0, newc));
                assert(err_unique(self.error_messages@));
                lemma_err_sum_update(s, i as int, (s[i as int].0, newc));
                assert(err_map(self.error_messages@) =~= err_map(s).insert(
                    msg@,
                    getc(err_map(s), msg@) + c as nat,
                ));
            }
        } else {
            self.error_messages.push((msg, c));
            proof {
                assert(!err_has(s, s.push((msg, c)).last().0@)) by {
                    if err_has(s, msg@) {
                        let j = choose|j: int| 0 <= j < s.len() && (#[trigger] s[j]).0@ == msg@;
                    }
                };
                lemma_err_map_push(s, self.error_messages@.last());
                lemma_err_sum_push(s, self.error_messages@.last());
                assert(err_map(self.error_messages@) =~= err_map(s).insert(
                    msg@,
                    getc(err_map(s), msg@) + c as nat,
                ));
            }
        }
    }

    /// Fold one parsed record into the running state.
    pub fn consume_entry(&mut self, e: LogEntry)
        requires
            old(self).wf(),
            ts_valid(e.ts),
            old(self)@.records() < u64::MAX,
        ensures
            final(self).wf(),
            final(self)@ == spec_consume_entry(old(self)@, e@),
    {
        match e.level {
            Level::Info => {
                self.info = self.info + 1;
            },
            Level::Warning => {
                self.warning = self.warning + 1;
            },
            Level::Error => {
                self.error = self.error + 1;
            },
        }
        self.first = Some(
            match self.first {
                None => e.ts,
                Some(f) => if f.key() <= e.ts.key() {
                    f
                } else {
                    e.ts
                },
            },
        );
        self.last = Some(
            match self.last {
                None => e.ts,
                Some(l) => if l.key() <= e.ts.key() {
                    e.ts
                } else {
                    l
                },
            },
        );
        let b = self.bucket(e.ts);
        proof {
            lemma_bucket_valid(e.ts, self.granularity);
        }
        self.tl_add(b, 1);
        if matches!(e.level, Level::Error) {
            self.err_add(e.message, 1);
        }
        proof {
            assert(self@ =~= spec_consume_entry(old(self)@, e@));
        }
    }
}

/// Folding is a left fold: one more outcome at the end is one more step.
pub proof fn lemma_fold_push(v: AnalyzerV, s: Seq<LineSpec>, x: LineSpec)
    ensures
        spec_fold(v, s.push(x)) == spec_consume_line(spec_fold(v, s), x),
    decreases s.len(),
{
    assert(s.push(x)[0] == if s.len() == 0 {
        x
    } else {
        s[0]
    });
    if s.len() == 0 {
        assert(s.push(x).drop_first() =~= Seq::<LineSpec>::empty());
        let w = spec_consume_line(v, x);
        assert(spec_fold(w, Seq::<LineSpec>::empty()) == w);
        assert(spec_fold(v, s.push(x)) == spec_consume_line(v, x));
    } else {
        assert(s.push(x).drop_first() =~= s.drop_first().push(x));
        lemma_fold_push(spec_consume_line(v, s[0]), s.drop_first(), x);
    }
}

/// Every line is accounted for: each outcome adds exactly one to either the
/// records or the malformed count, and the granularity never changes.
pub proof fn lemma_fold_accounting(v: AnalyzerV, outs: Seq<LineSpec>)
    ensures
        spec_fold(v, outs).total() == v.total() + outs.len(),
        spec_fold(v, outs).granularity == v.granularity,
    decreases outs.len(),
{
    if outs.len() > 0 {
        lemma_fold_accounting(spec_consume_line(v, outs[0]), outs.drop_first());
    }
}

impl Analyzer {
    /// Consume a sequence of raw lines through a parser: each line becomes
    /// either one record or one malformed line; a bad line never aborts the
    /// run. The final state is the fold of the parser's outcomes over the
    /// starting state.
    pub fn consume_lines<P: LogParser>(&mut self, parser: &mut P, lines: &Vec<String>)
        requires
            old(self).wf(),
            old(self)@.total() + lines@.len() <= u64::MAX,
        ensures
            final(self).wf(),
            final(self)@ == spec_fold(
                old(self)@,
                Seq::new(lines@.len(), |i: int| old(parser).line_spec(lines@[i]@)),
            ),
            final(self)@.total() == old(self)@.total() + lines@.len(),
            final(self)@.granularity == old(self)@.granularity,
            forall|l: Seq<char>| #[trigger] final(parser).line_spec(l) == old(parser).line_spec(
                l,
            ),
    {
        let ghost outs = Seq::new(lines@.len(), |i: int| parser.line_spec(lines@[i]@));
        let ghost v0 = self@;
        let n = lines.len();
        proof {
            assert(outs.len() == lines@.len());
        }
        let mut idx: usize = 0;
        proof {
            assert(outs.take(0) =~= Seq::<LineSpec>::empty());
        }
        while idx < n
            invariant
                0 <= idx <= n,
                n == lines@.len(),
                outs.len() == n,
                self.wf(),
                self@ == spec_fold(v0, outs.take(idx as int)),
                self@.total() == v0.total() + idx,
                self@.granularity == v0.granularity,
                v0.total() + n <= u64::MAX,
                forall|j: int|
                    0 <= j < n ==> #[trigger] parser.line_spec(lines@[j]@) == outs[j],
                forall|l: Seq<char>| #[trigger] parser.line_spec(l) == old(parser).line_spec(l),
            decreases n - idx,
        {
            let line = &lines[idx];
            let r = parser.parse_line(line.as_str());
            proof {
                assert(outs.len() == n as int);
                lemma_fold_push(v0, outs.take(idx as int), outs[idx as int]);
                assert(outs.take(idx as int).push(outs[idx as int]) =~= outs.take(idx as int + 1));
            }
            match r {
                Ok(Some(entry)) => {
                    self.consume_entry(entry);
                },
                Ok(None) => {
                    self.malformed_lines = self.malformed_lines + 1;
                    proof {
                        assert(self@ =~= spec_consume_line(
                            spec_fold(v0, outs.take(idx as int)),
                            outs[idx as int],
                        ));
                    }
                },
                Err(_) => {
                    self.malformed_lines = self.malformed_lines + 1;
                    proof {
                        assert(self@ =~= spec_consume_line(
                            spec_fold(v0, outs.take(idx as int)),
                            outs[idx as int],
                        ));
                    }
                },
            }
            idx = idx + 1;
        }
        proof {
            assert(outs.take(n as int) =~= outs);
        }
    }
}

proof fn lemma_err_sum_take(s: Seq<(String, u64)>, i: int)
    requires
        0 <= i < s.len(),
    ensures
        err_sum(s.take(i + 1)) == err_sum(s.take(i)) + s[i].1,
{
    assert(s.take(i + 1).drop_last() =~= s.take(i));
    assert(s.take(i + 1).last() == s[i]);
}

proof fn lemma_err_sum_take_le(s: Seq<(String, u64)>, i: int)
    requires
        0 <= i <= s.len(),
        forall|j: int| 0 <= j < s.len() ==> (#[trigger] s[j]).1 >= 0,
    ensures
        err_sum(s.take(i)) <= err_sum(s),
    decreases s.len() - i,
{
    if i == s.len() {
        assert(s.take(i) =~= s);
    } else {
        lemma_err_sum_take(s, i);
        lemma_err_sum_take_le(s, i + 1);
    }
}

proof fn lemma_tl_sum_take(s: Seq<(Timestamp, u64)>, i: int)
    requires
        0 <= i < s.len(),
    ensures
        tl_sum(s.take(i + 1)) == tl_sum(s.take(i)) + s[i].1,
{
    assert(s.take(i + 1).drop_last() =~= s.take(i));
    assert(s.take(i + 1).last() == s[i]);
}

proof fn lemma_tl_sum_take_le(s: Seq<(Timestamp, u64)>, i: int)
    requires
        0 <= i <= s.len(),
    ensures
        tl_sum(s.take(i)) <= tl_sum(s),
    decreases s.len() - i,
{
    if i == s.len() {
        assert(s.take(i) =~= s);
    } else {
        lemma_tl_sum_take(s, i);
        lemma_tl_sum_take_le(s, i + 1);
    }
}

/// With unique keys, a vector prefix maps a key it holds to that entry.
proof fn lemma_tl_map_take_step(s: Seq<(Timestamp, u64)>, i: int)
    requires
        tl_sorted(s),
        0 <= i < s.len(),
    ensures
        !tl_has(s.take(i), s[i].0),
        tl_map(s.take(i + 1)) =~= tl_map(s.take(i)).insert(s[i].0, s[i].1 as nat),
    decreases s.len(),
{
    assert(!tl_has(s.take(i), s[i].0)) by {
        if tl_has(s.take(i), s[i].0) {
            let j = choose|j: int| 0 <= j < s.take(i).len() && (#[trigger] s.take(i)[j]).0
                == s[i].0;
            assert(ts_key(s[j].0) < ts_key(s[i].0));
        }
    };
    assert(s.take(i + 1) =~= s.take(i).insert(i, s[i]));
    assert(tl_sorted(s.take(i)));
    lemma_tl_map_insert(s.take(i), i, s[i].0, s[i].1);
}

pub(crate) proof fn lemma_err_map_take_step(s: Seq<(String, u64)>, i: int)
    requires
        err_unique(s),
        0 <= i < s.len(),
    ensures
        !err_has(s.take(i), s[i].0@),
        err_map(s.take(i + 1)) =~= err_map(s.take(i)).insert(s[i].0@, s[i].1 as nat),
{
    assert(!err_has(s.take(i), s[i].0@)) by {
        if err_has(s.take(i), s[i].0@) {
            let j = choose|j: int| 0 <= j < s.take(i).len() && (#[trigger] s.take(i)[j]).0@
                == s[i].0@;
            assert(s[j].0@ != s[i].0@);
        }
    };
    assert(s.take(i + 1) =~= s.take(i).push(s[i]));
    assert(err_unique(s.take(i)));
    lemma_err_map_push(s.take(i), s[i]);
}

/// Adding a map whose fresh key was bumped equals bumping the sum.
proof fn lemma_add_maps_bump<K>(a: Map<K, nat>, b: Map<K, nat>, k: K, c: nat)
    requires
        !b.contains_key(k),
    ensures
        add_maps(a, b.insert(k, c)) =~= add_maps(a, b).insert(k, getc(a, k) + c),
{
}

impl Analyzer {
    /// Merge another analyzer's state into this one: pointwise sums of the
    /// counters and maps, min/max of the first/last bounds. Merging partial
    /// states from split inputs equals analyzing the whole input.
    pub fn merge(&mut self, other: &Analyzer)
        requires
            old(self).wf(),
            other.wf(),
            old(self).granularity == other.granularity,
            old(self)@.records() + other@.records() <= u64::MAX,
            old(self)@.malformed + other@.malformed <= u64::MAX,
        ensures
            final(self).wf(),
            final(self)@ == spec_merge(old(self)@, other@),
    {
        self.info = self.info + other.info;
        self.warning = self.warning + other.warning;
        self.error = self.error + other.error;
        self.malformed_lines = self.malformed_lines + other.malformed_lines;
        self.first = match (self.first, other.first) {
            (None, y) => y,
            (x, None) => x,
            (Some(x), Some(y)) => Some(
                if x.key() <= y.key() {
                    x
                } else {
                    y
                },
            ),
        };
        self.last = match (self.last, other.last) {
            (None, y) => y,
            (x, None) => x,
            (Some(x), Some(y)) => Some(
                if x.key() <= y.key() {
                    y
                } else {
                    x
                },
            ),
        };
        let ghost tl0 = tl_map(self.timeline@);
        let ghost os = other.timeline@;
        let n = other.timeline.len();
        let mut i: usize = 0;
        proof {
            assert(os.take(0) =~= Seq::<(Timestamp, u64)>::empty());
            assert(tl_map(os.take(0)) =~= Map::<Timestamp, nat>::empty());
            assert(add_maps(tl0, tl_map(os.take(0))) =~= tl0);
        }
        while i < n
            invariant
                0 <= i <= n,
                n == os.len(),
                os == other.timeline@,
                tl_sorted(os),
                forall|j: int| 0 <= j < n ==> ts_valid((#[trigger] os[j]).0) && os[j].1 >= 1,
                tl_sorted(self.timeline@),
                forall|j: int|
                    0 <= j < self.timeline@.len() ==> ts_valid((#[trigger] self.timeline@[j]).0)
                        && self.timeline@[j].1 >= 1,
                tl_map(self.timeline@) == add_maps(tl0, tl_map(os.take(i as int))),
                tl_sum(self.timeline@) == tl_sum(old(self).timeline@) + tl_sum(os.take(i as int)),
                tl_sum(old(self).timeline@) + tl_sum(os) <= u64::MAX,
                self.granularity == old(self).granularity,
                self.info == old(self).info + other.info,
                self.warning == old(self).warning + other.warning,
                self.error == old(self).error + other.error,
                self.malformed_lines == old(self).malformed_lines + other.malformed_lines,
                self.first == opt_min(old(self).first, other.first),
                self.last == opt_max(old(self).last, other.last),
                self.error_messages == old(self).error_messages,
            decreases n - i,
        {
            let pair = other.timeline[i];
            proof {
                lemma_tl_sum_take(os, i as int);
                lemma_tl_sum_take_le(os, i as int + 1);
                lemma_tl_sum_nonneg_pub(os.take(i as int));
            }
            self.tl_add(pair.0, pair.1);
            proof {
                lemma_tl_map_take_step(os, i as int);
                lemma_add_maps_bump(tl0, tl_map(os.take(i as int)), pair.0, pair.1 as nat);
                assert(getc(add_maps(tl0, tl_map(os.take(i as int))), pair.0) == getc(tl0, pair.0)
                    + getc(tl_map(os.take(i as int)), pair.0));
                assert(tl_map(self.timeline@) =~= add_maps(tl0, tl_map(os.take(i as int + 1))));
            }
            i = i + 1;
        }
        proof {
            assert(os.take(n as int) =~= os);
        }
        let ghost er0 = err_map(self.error_messages@);
        let ghost es = other.error_messages@;
        let m = other.error_messages.len();
        let mut j: usize = 0;
        proof {
            assert(es.take(0) =~= Seq::<(String, u64)>::empty());
            assert(err_map(es.take(0)) =~= Map::<Seq<char>, nat>::empty());
            assert(add_maps(er0, err_map(es.take(0))) =~= er0);
        }
        while j < m
            invariant
                0 <= j <= m,
                m == es.len(),
                es == other.error_messages@,
                err_unique(es),
                forall|l: int| 0 <= l < m ==> (#[trigger] es[l]).1 >= 1,
                err_unique(self.error_messages@),
                forall|l: int|
                    0 <= l < self.error_messages@.len() ==> (#[trigger] self.error_messages@[l]).1
                        >= 1,
                err_map(self.error_messages@) == add_maps(er0, err_map(es.take(j as int))),
                err_sum(self.error_messages@) == err_sum(old(self).error_messages@) + err_sum(
                    es.take(j as int),
                ),
                err_sum(old(self).error_messages@) + err_sum(es) <= u64::MAX,
                self.granularity == old(self).granularity,
                self.info == old(self).info + other.info,
                self.warning == old(self).warning + other.warning,
                self.error == old(self).error + other.error,
                self.malformed_lines == old(self).malformed_lines + other.malformed_lines,
                self.first == opt_min(old(self).first, other.first),
                self.last == opt_max(old(self).last, other.last),
                tl_sorted(self.timeline@),
                forall|l: int|
                    0 <= l < self.timeline@.len() ==> ts_valid((#[trigger] self.timeline@[l]).0)
                        && self.timeline@[l].1 >= 1,
                tl_map(self.timeline@) == add_maps(tl0, tl_map(os)),
                tl_sum(self.timeline@) == tl_sum(old(self).timeline@) + tl_sum(os),
            decreases m - j,
        {
            let pair = &other.error_messages[j];
            let msg = pair.0.clone();
            let c = pair.1;
            proof {
                lemma_err_sum_take(es, j as int);
                lemma_err_sum_take_le(es, j as int + 1);
                lemma_err_sum_nonneg_pub(es.take(j as int));
            }
            self.err_add(msg, c);
            proof {
                lemma_err_map_take_step(es, j as int);
                lemma_add_maps_bump(er0, err_map(es.take(j as int)), es[j as int].0@, c as nat);
                assert(err_map(self.error_messages@) =~= add_maps(
                    er0,
                    err_map(es.take(j as int + 1)),
                ));
            }
            j = j + 1;
        }
        proof {
            assert(es.take(m as int) =~= es);
            assert(self@ =~= spec_merge(old(self)@, other@));
        }
    }
}

/// Public restatements of the sum bounds, used across the merge loops.
proof fn lemma_tl_sum_nonneg_pub(s: Seq<(Timestamp, u64)>)
    ensures
        tl_sum(s) >= 0,
{
    lemma_tl_sum_nonneg(s);
}

proof fn lemma_err_sum_nonneg_pub(s: Seq<(String, u64)>)
    ensures
        err_sum(s) >= 0,
{
    lemma_err_sum_nonneg(s);
}

// ---------------------------------------------------------------------------
// The merge law on states
// ---------------------------------------------------------------------------
/// Folding a concatenation is folding the parts in order.
pub proof fn lemma_fold_concat(v: AnalyzerV, s1: Seq<LineSpec>, s2: Seq<LineSpec>)
    ensures
        spec_fold(v, s1 + s2) == spec_fold(spec_fold(v, s1), s2),
    decreases s1.len(),
{
    if s1.len() == 0 {
        assert(s1 + s2 =~= s2);
    } else {
        assert((s1 + s2).drop_first() =~= s1.drop_first() + s2);
        assert((s1 + s2)[0] == s1[0]);
        lemma_fold_concat(spec_consume_line(v, s1[0]), s1.drop_first(), s2);
    }
}

/// The empty state is a merge identity.
pub proof fn lemma_merge_init(v: AnalyzerV)
    ensures
        spec_merge(v, init_state(v.granularity)) == v,
{
    assert(add_maps(v.timeline, init_state(v.granularity).timeline) =~= v.timeline);
    assert(add_maps(v.errors, init_state(v.granularity).errors) =~= v.errors);
    assert(spec_merge(v, init_state(v.granularity)) =~= v);
}

/// One step from any state equals merging in one step from the empty state.
pub proof fn lemma_merge_one(v: AnalyzerV, o: LineSpec)
    ensures
        spec_consume_line(v, o) == spec_merge(
            v,
            spec_consume_line(init_state(v.granularity), o),
        ),
{
    let w = spec_consume_line(init_state(v.granularity), o);
    match o {
        LineSpec::Entry(e) => {
            assert(add_maps(v.timeline, w.timeline) =~= bump(
                v.timeline,
                bucket_spec(e.ts, v.granularity),
            ));
            if e.level is Error {
                assert(add_maps(v.errors, w.errors) =~= bump(v.errors, e.message));
            } else {
                assert(add_maps(v.errors, w.errors) =~= v.errors);
            }
            assert(spec_consume_line(v, o) =~= spec_merge(v, w));
        },
        LineSpec::NoMatch => {
            assert(add_maps(v.timeline, w.timeline) =~= v.timeline);
            assert(add_maps(v.errors, w.errors) =~= v.errors);
            assert(spec_consume_line(v, o) =~= spec_merge(v, w));
        },
        LineSpec::BadTs(_) => {
            assert(add_maps(v.timeline, w.timeline) =~= v.timeline);
            assert(add_maps(v.errors, w.errors) =~= v.errors);
            assert(spec_consume_line(v, o) =~= spec_merge(v, w));
        },
    }
}

/// Merging is associative.
pub proof fn lemma_merge_assoc(a: AnalyzerV, b: AnalyzerV, c: AnalyzerV)
    ensures
        spec_merge(spec_merge(a, b), c) == spec_merge(a, spec_merge(b, c)),
{
    assert(add_maps(add_maps(a.timeline, b.timeline), c.timeline) =~= add_maps(
        a.timeline,
        add_maps(b.timeline, c.timeline),
    ));
    assert(add_maps(add_maps(a.errors, b.errors), c.errors) =~= add_maps(
        a.errors,
        add_maps(b.errors, c.errors),
    ));
    assert(spec_merge(spec_merge(a, b), c) =~= spec_merge(a, spec_merge(b, c)));
}

/// Folding a sequence from any state equals merging in the fold of the same
/// sequence from the empty state.
pub proof fn lemma_fold_merge(v: AnalyzerV, s: Seq<LineSpec>)
    ensures
        spec_fold(v, s) == spec_merge(v, spec_fold(init_state(v.granularity), s)),
    decreases s.len(),
{
    let g = v.granularity;
    if s.len() == 0 {
        lemma_merge_init(v);
    } else {
        let o = s[0];
        let rest = s.drop_first();
        let v1 = spec_consume_line(v, o);
        let w1 = spec_consume_line(init_state(g), o);
        assert(v1.granularity == g && w1.granularity == g);
        lemma_fold_merge(v1, rest);
        lemma_fold_merge(w1, rest);
        lemma_merge_one(v, o);
        lemma_merge_assoc(v, w1, spec_fold(init_state(g), rest));
        assert(spec_fold(v, s) == spec_merge(
            spec_merge(v, w1),
            spec_fold(init_state(g), rest),
        ));
        assert(spec_fold(init_state(g), s) == spec_merge(
            w1,
            spec_fold(init_state(g), rest),
        ));
    }
}

/// Every Entry outcome in the sequence carries a valid timestamp; true of
/// every sequence a `LogParser` can produce.
pub open spec fn outs_valid(s: Seq<LineSpec>) -> bool {
    forall|i: int|
        0 <= i < s.len() ==> ((#[trigger] s[i]) is Entry ==> ts_valid(s[i]->Entry_0.ts))
}

/// Validity of the first/last bounds of a state.
pub open spec fn bounds_valid(v: AnalyzerV) -> bool {
    &&& (v.first is Some ==> ts_valid(v.first->Some_0))
    &&& (v.last is Some ==> ts_valid(v.last->Some_0))
}

pub proof fn lemma_fold_bounds_valid(v: AnalyzerV, s: Seq<LineSpec>)
    requires
        bounds_valid(v),
        outs_valid(s),
    ensures
        bounds_valid(spec_fold(v, s)),
    decreases s.len(),
{
    if s.len() > 0 {
        assert(bounds_valid(spec_consume_line(v, s[0])));
        assert(outs_valid(s.drop_first())) by {
            assert(forall|i: int|
                0 <= i < s.drop_first().len() ==> #[trigger] s.drop_first()[i] == s[i + 1]);
        };
        lemma_fold_bounds_valid(spec_consume_line(v, s[0]), s.drop_first());
    }
}

/// Merging is commutative on states whose bounds are valid timestamps.
pub proof fn lemma_merge_comm(a: AnalyzerV, b: AnalyzerV)
    requires
        a.granularity == b.granularity,
        bounds_valid(a),
        bounds_valid(b),
    ensures
        spec_merge(a, b) == spec_merge(b, a),
{
    assert(opt_min(a.first, b.first) == opt_min(b.first, a.first)) by {
        if a.first is Some && b.first is Some {
            let x = a.first->Some_0;
            let y = b.first->Some_0;
            if ts_key(x) == ts_key(y) {
                lemma_ts_key_injective(x, y);
            }
        }
    };
    assert(opt_max(a.last, b.last) == opt_max(b.last, a.last)) by {
        if a.last is Some && b.last is Some {
            let x = a.last->Some_0;
            let y = b.last->Some_0;
            if ts_key(x) == ts_key(y) {
                lemma_ts_key_injective(x, y);
            }
        }
    };
    assert(add_maps(a.timeline, b.timeline) =~= add_maps(b.timeline, a.timeline));
    assert(add_maps(a.errors, b.errors) =~= add_maps(b.errors, a.errors));
    assert(spec_merge(a, b) =~= spec_merge(b, a));
}

/// The merge law on states: folding the concatenation of two outcome
/// sequences from the empty state equals merging their separate folds, in
/// either order.
pub proof fn lemma_fold_split(g: Granularity, o1: Seq<LineSpec>, o2: Seq<LineSpec>)
    requires
        outs_valid(o1),
        outs_valid(o2),
    ensures
        spec_fold(init_state(g), o1 + o2) == spec_merge(
            spec_fold(init_state(g), o1),
            spec_fold(init_state(g), o2),
        ),
        spec_fold(init_state(g), o2 + o1) == spec_merge(
            spec_fold(init_state(g), o1),
            spec_fold(init_state(g), o2),
        ),
{
    let w1 = spec_fold(init_state(g), o1);
    let w2 = spec_fold(init_state(g), o2);
    lemma_fold_accounting(init_state(g), o1);
    lemma_fold_accounting(init_state(g), o2);
    lemma_fold_concat(init_state(g), o1, o2);
    lemma_fold_concat(init_state(g), o2, o1);
    lemma_fold_merge(w1, o2);
    lemma_fold_merge(w2, o1);
    lemma_fold_bounds_valid(init_state(g), o1);
    lemma_fold_bounds_valid(init_state(g), o2);
    lemma_merge_comm(w2, w1);
}

// ---------------------------------------------------------------------------
// Filters
// ---------------------------------------------------------------------------
/// A date-only text `YYYY-MM-DD`, interpreted as midnight of that date.
pub open spec fn date_head(s: Seq<char>) -> bool {
    &&& s.len() == 10
    &&& is_digit(s[0]) && is_digit(s[1]) && is_digit(s[2]) && is_digit(s[3])
    &&& s[4] == '-' && is_digit(s[5]) && is_digit(s[6]) && s[7] == '-'
    &&& is_digit(s[8]) && is_digit(s[9])
}

/// The filter date grammar: a full date-time with either separator, or a
/// date alone standing for its midnight; the fields must form a real date.
pub open spec fn spec_parse_filter_dt(s: Seq<char>) -> Option<Timestamp> {
    if s.len() == 19 && ts_head(s, false) {
        if ts_valid(head_ts(s)) {
            Some(head_ts(s))
        } else {
            None
        }
    } else if date_head(s) {
        let t = Timestamp {
            year: num4(s, 0) as u32,
            month: num2(s, 5) as u32,
            day: num2(s, 8) as u32,
            hour: 0,
            minute: 0,
            second: 0,
        };
        if ts_valid(t) {
            Some(t)
        } else {
            None
        }
    } else {
        None
    }
}

/// Parse one user-supplied date or date-time filter bound.
pub fn parse_filter_dt(s: &str) -> (r: Option<Timestamp>)
    ensures
        r == spec_parse_filter_dt(s@),
        r matches Some(t) ==> ts_valid(t),
{
    let n = s.unicode_len();
    if n == 19 && crate::parse::check_ts_head(s, n, false) {
        let t = crate::parse::read_head_ts(s, n);
        if t.valid() {
            Some(t)
        } else {
            None
        }
    } else if n == 10 && crate::text::digit_at(s, n, 0) && crate::text::digit_at(s, n, 1)
        && crate::text::digit_at(s, n, 2) && crate::text::digit_at(s, n, 3)
        && crate::text::char_at_is(s, n, 4, '-') && crate::text::digit_at(s, n, 5)
        && crate::text::digit_at(s, n, 6) && crate::text::char_at_is(s, n, 7, '-')
        && crate::text::digit_at(s, n, 8) && crate::text::digit_at(s, n, 9) {
        let t = Timestamp {
            year: crate::text::read_num4(s, n, 0),
            month: crate::text::read_num2(s, n, 5),
            day: crate::text::read_num2(s, n, 8),
            hour: 0,
            minute: 0,
            second: 0,
        };
        if t.valid() {
            Some(t)
        } else {
            None
        }
    } else {
        None
    }
}

/// A record predicate: level equality, inclusive lower and exclusive upper
/// timestamp bounds, case-insensitive keyword containment; absent criteria
/// always pass. Accepted at the edges of the design but, by the observed
/// aggregation contract, not applied during streaming aggregation: the
/// batch summary reflects the unfiltered input.
#[derive(Clone, Debug)]
pub struct Filters {
    pub keyword: Option<String>,
    pub from: Option<Timestamp>,
    pub to: Option<Timestamp>,
    pub level: Option<Level>,
}

/// Model of `Filters`: the keyword as a character sequence, already folded
/// to lowercase.
pub struct FiltersV {
    pub keyword: Option<Seq<char>>,
    pub from: Option<Timestamp>,
    pub to: Option<Timestamp>,
    pub level: Option<Level>,
}

impl View for Filters {
    type V = FiltersV;

    open spec fn view(&self) -> FiltersV {
        FiltersV {
            keyword: match self.keyword {
                Some(ref k) => Some(k@),
                None => None,
            },
            from: self.from,
            to: self.to,
            level: self.level,
        }
    }
}

pub open spec fn opt_str_view(x: Option<&str>) -> Option<Seq<char>> {
    match x {
        Some(s) => Some(s@),
        None => None,
    }
}

/// Both bounds parse (an absent bound trivially does).
pub open spec fn dt_ok(x: Option<Seq<char>>) -> bool {
    match x {
        None => true,
        Some(s) => spec_parse_filter_dt(s) is Some,
    }
}

pub open spec fn dt_val(x: Option<Seq<char>>) -> Option<Timestamp> {
    match x {
        None => None,
        Some(s) => spec_parse_filter_dt(s),
    }
}

/// All present criteria hold of the record.
pub open spec fn spec_pass(f: FiltersV, e: EntryV) -> bool {
    &&& (match f.level {
        Some(lv) => e.level == lv,
        None => true,
    })
    &&& (match f.from {
        Some(t) => ts_key(e.ts) >= ts_key(t),
        None => true,
    })
    &&& (match f.to {
        Some(t) => ts_key(e.ts) < ts_key(t),
        None => true,
    })
    &&& (match f.keyword {
        Some(k) => contains_sub(lower_of(e.message), k),
        None => true,
    })
}

impl Filters {
    /// Present bounds are valid timestamps.
    pub open spec fn wf(&self) -> bool {
        &&& (self.from matches Some(t) ==> ts_valid(t))
        &&& (self.to matches Some(t) ==> ts_valid(t))
    }

    /// Build filters from user-supplied strings. The keyword is folded to
    /// lowercase; an unparseable date or date-time is a hard construction
    /// failure naming the offending text, and no partial filter results.
    pub fn from_cli(
        keyword: Option<&str>,
        from: Option<&str>,
        to: Option<&str>,
        level: Option<Level>,
    ) -> (r: Result<Filters, String>)
        ensures
            r is Ok <==> dt_ok(opt_str_view(from)) && dt_ok(opt_str_view(to)),
            r matches Ok(f) ==> {
                &&& f.wf()
                &&& f@.keyword == (match keyword {
                    Some(k) => Some(lower_of(k@)),
                    None => None::<Seq<char>>,
                })
                &&& f@.from == dt_val(opt_str_view(from))
                &&& f@.to == dt_val(opt_str_view(to))
                &&& f@.level == level
            },
            r matches Err(e) ==> e@ == "Could not parse datetime: "@ + (if !dt_ok(
                opt_str_view(from),
            ) {
                from->Some_0@
            } else {
                to->Some_0@
            }),
    {
        let fts = match from {
            None => None,
            Some(s) => match parse_filter_dt(s) {
                Some(t) => Some(t),
                None => {
                    let mut e = String::new();
                    e.append("Could not parse datetime: ");
                    e.append(s);
                    return Err(e);
                },
            },
        };
        let tts = match to {
            None => None,
            Some(s) => match parse_filter_dt(s) {
                Some(t) => Some(t),
                None => {
                    let mut e = String::new();
                    e.append("Could not parse datetime: ");
                    e.append(s);
                    return Err(e);
                },
            },
        };
        let kw = match keyword {
            None => None,
            Some(k) => Some(lowercase(k)),
        };
        Ok(Filters { keyword: kw, from: fts, to: tts, level })
    }

    /// Whether a record passes every present criterion.
    pub fn pass(&self, e: &LogEntry) -> (r: bool)
        requires
            self.wf(),
            ts_valid(e.ts),
        ensures
            r == spec_pass(self@, e@),
    {
        if let Some(lv) = self.level {
            if !matches!(
                (e.level, lv),
                (Level::Info, Level::Info) | (Level::Warning, Level::Warning) | (
                    Level::Error,
                    Level::Error,
                )
            ) {
                return false;
            }
        }
        if let Some(f) = self.from {
            if e.ts.key() < f.key() {
                return false;
            }
        }
        if let Some(t) = self.to {
            if e.ts.key() >= t.key() {
                return false;
            }
        }
        if let Some(ref k) = self.keyword {
            let lm = lowercase(e.message.as_str());
            if !contains_str(lm.as_str(), k.as_str()) {
                return false;
            }
        }
        true
    }
}

} // verus!
