//! Discovery and indexing of repeated substrings.
//!
//! `Sequences::from` scans a text with a matched-run table and records, for
//! each substring it discovers, the half-open intervals where it stands. The
//! result is an index from each such substring (a token) to its intervals,
//! kept in ascending token order.
use vstd::prelude::*;
use vstd::string::*;
use crate::number::{decimal, display_number, json_number};
use crate::order::{compare_ranges, lemma_text_lt_irreflexive, lemma_text_lt_transitive, text_lt};

verus! {

/// A half-open interval `[start, end)` of positions in a text.
#[derive(Clone, Copy, Debug, PartialEq, Eq, Structural, Hash, PartialOrd, Ord)]
pub struct Sequence {
    start: usize,
    end: usize,
}

impl View for Sequence {
    type V = (int, int);

    closed spec fn view(&self) -> (int, int) {
        (self.start as int, self.end as int)
    }
}

/// The JSON record `{"start":..,"end":..}` of an interval.
pub open spec fn json_text(iv: (int, int)) -> Seq<char> {
    "{\"start\":"@ + decimal(iv.0 as nat) + ",\"end\":"@ + decimal(iv.1 as nat) + "}"@
}

impl Sequence {
    pub fn new(start: usize, end: usize) -> (r: Sequence)
        requires
            start <= end,
        ensures
            r@ == (start as int, end as int),
    {
        Sequence { start, end }
    }

    pub fn start(&self) -> (r: usize)
        ensures
            r == self@.0,
    {
        self.start
    }

    pub fn end(&self) -> (r: usize)
        ensures
            r == self@.1,
    {
        self.end
    }

    /// The interval as a JSON record with the fields `start` and `end`.
    pub fn to_json(&self) -> (r: String)
        ensures
            r@ == json_text(self@),
    {
        let mut out = String::from_str("{\"start\":");
        match json_number(self.start) {
            Ok(t) => out.append(t.as_str()),
            Err(_) => {},
        }
        out.append(",\"end\":");
        match json_number(self.end) {
            Ok(t) => out.append(t.as_str()),
            Err(_) => {},
        }
        out.append("}");
        out
    }
}

// The matched-run table. For a text `s` of length `n`, `cell(s, i, j)` with
// `1 <= i <= j <= n` is the interval that the scan holds for the pair of
// positions `i - 1` and `j - 1`; `(0, 0)` where it holds none.
/// The table entry at row `i`, column `j`.
pub open spec fn cell(s: Seq<char>, i: int, j: int) -> (int, int)
    decreases i,
{
    if i < 1 || j < i || j > s.len() {
        (0, 0)
    } else if i == j {
        (0, i)
    } else if s[i - 1] != s[j - 1] {
        (0, 0)
    } else {
        let p = cell(s, i - 1, j - 1);
        if j - i == 1 && p.1 == 0 {
            (j - 2, j)
        } else {
            (j - (p.1 - p.0) - 1, j)
        }
    }
}

/// At row `i`, column `j`, a match of two neighbouring positions starts
/// afresh (it does not extend the entry before it on its diagonal).
pub open spec fn fresh_neighbours(s: Seq<char>, i: int, j: int) -> bool {
    j - i == 1 && cell(s, i - 1, j - 1).1 == 0
}

/// The step of the scan at row `i`, column `j` records the interval `[a, b)`.
pub open spec fn step_records(s: Seq<char>, i: int, j: int, a: int, b: int) -> bool {
    if i == j {
        (a == i - 1 && b == i) || (a == 0 && b == i)
    } else if s[i - 1] != s[j - 1] {
        false
    } else {
        let c = cell(s, i, j);
        ||| (a == c.0 && b == c.1)
        ||| (!fresh_neighbours(s, i, j) && c.1 - c.0 > 1 && a == c.0 + 1 && b == c.1)
    }
}

/// Some step of the scan over `s` records the interval `[a, b)`.
pub open spec fn recorded(s: Seq<char>, a: int, b: int) -> bool {
    exists|i: int, j: int| 1 <= i <= j <= s.len() && #[trigger] step_records(s, i, j, a, b)
}

/// Some step before row `i0`, or in row `i0` before column `j0`, records `[a, b)`.
pub open spec fn recorded_before(s: Seq<char>, i0: int, j0: int, a: int, b: int) -> bool {
    exists|i: int, j: int|
        1 <= i <= j <= s.len() && (i < i0 || (i == i0 && j < j0)) && #[trigger] step_records(
            s,
            i,
            j,
            a,
            b,
        )
}

/// An entry off the diagonal is empty, or ends at its column, starts at or
/// after position 0, and is no longer than its row plus one.
pub proof fn lemma_cell_bounds(s: Seq<char>, i: int, j: int)
    requires
        1 <= i < j <= s.len(),
    ensures
        cell(s, i, j) == (0int, 0int) || (cell(s, i, j).1 == j && 0 <= cell(s, i, j).0 && j
            - cell(s, i, j).0 <= i + 1 && cell(s, i, j).0 < j),
    decreases i,
{
    let p = cell(s, i - 1, j - 1);
    if i > 1 {
        lemma_cell_bounds(s, i - 1, j - 1);
    } else {
        assert(p == (0int, 0int));
    }
}

proof fn lemma_step_advance(s: Seq<char>, i: int, j: int, a: int, b: int)
    requires
        1 <= i <= j <= s.len(),
    ensures
        recorded_before(s, i, j + 1, a, b) == (recorded_before(s, i, j, a, b) || step_records(
            s,
            i,
            j,
            a,
            b,
        )),
{
    if recorded_before(s, i, j + 1, a, b) {
        let (x, y) = choose|x: int, y: int|
            1 <= x <= y <= s.len() && (x < i || (x == i && y < j + 1)) && #[trigger] step_records(
                s,
                x,
                y,
                a,
                b,
            );
        if !(x == i && y == j) {
            assert(recorded_before(s, i, j, a, b));
        }
    }
    if recorded_before(s, i, j, a, b) {
        let (x, y) = choose|x: int, y: int|
            1 <= x <= y <= s.len() && (x < i || (x == i && y < j)) && #[trigger] step_records(
                s,
                x,
                y,
                a,
                b,
            );
        assert(recorded_before(s, i, j + 1, a, b));
    }
    if step_records(s, i, j, a, b) {
        assert(recorded_before(s, i, j + 1, a, b));
    }
}

proof fn lemma_row_advance(s: Seq<char>, i: int, a: int, b: int)
    requires
        1 <= i <= s.len(),
    ensures
        recorded_before(s, i, s.len() as int + 1, a, b) == recorded_before(s, i + 1, i + 1, a, b),
{
    if recorded_before(s, i, s.len() as int + 1, a, b) {
        let (x, y) = choose|x: int, y: int|
            1 <= x <= y <= s.len() && (x < i || (x == i && y < s.len() as int + 1))
                && #[trigger] step_records(s, x, y, a, b);
        assert(recorded_before(s, i + 1, i + 1, a, b));
    }
    if recorded_before(s, i + 1, i + 1, a, b) {
        let (x, y) = choose|x: int, y: int|
            1 <= x <= y <= s.len() && (x < i + 1 || (x == i + 1 && y < i + 1))
                && #[trigger] step_records(s, x, y, a, b);
        assert(recorded_before(s, i, s.len() as int + 1, a, b));
    }
}

proof fn lemma_all_rows(s: Seq<char>, a: int, b: int)
    ensures
        recorded_before(s, s.len() as int + 1, s.len() as int + 1, a, b) == recorded(s, a, b),
{
    if recorded(s, a, b) {
        let (x, y) = choose|x: int, y: int| 1 <= x <= y <= s.len() && #[trigger] step_records(s, x, y, a, b);
        assert(recorded_before(s, s.len() as int + 1, s.len() as int + 1, a, b));
    }
}

/// The characters of `s`.
fn chars_of(s: &str) -> (r: Vec<char>)
    ensures
        r@ == s@,
{
    let n = s.unicode_len();
    let mut r: Vec<char> = Vec::new();
    let mut k: usize = 0;
    while k < n
        invariant
            n == s@.len(),
            k <= n,
            r@ == s@.subrange(0, k as int),
        decreases n - k,
    {
        r.push(s.get_char(k));
        k = k + 1;
        assert(r@ =~= s@.subrange(0, k as int));
    }
    assert(r@ =~= s@);
    r
}

/// A row of `n` empty table entries.
fn empty_row(n: usize) -> (r: Vec<Sequence>)
    ensures
        r@.len() == n,
        forall|k: int| 0 <= k < n ==> (#[trigger] r@[k])@ == (0int, 0int),
{
    let mut r: Vec<Sequence> = Vec::new();
    let mut k: usize = 0;
    while k < n
        invariant
            k <= n,
            r@.len() == k,
            forall|x: int| 0 <= x < k ==> (#[trigger] r@[x])@ == (0int, 0int),
        decreases n - k,
    {
        r.push(Sequence::new(0, 0));
        k = k + 1;
    }
    r
}

/// One token of the index with the intervals recorded for it.
struct Entry {
    token: String,
    intervals: Vec<Sequence>,
}

/// An index from each discovered token to the intervals where it stands,
/// in ascending token order.
///
/// Once built it is only read: it holds no interior mutability, so any
/// number of threads may query it at once.
pub struct Sequences {
    entries: Vec<Entry>,
}

/// The intervals of the first entry of `es` whose token is `t`.
spec fn lookup(es: Seq<Entry>, t: Seq<char>) -> Seq<Sequence>
    decreases es.len(),
{
    if es.len() == 0 {
        Seq::empty()
    } else if es[0].token@ == t {
        es[0].intervals@
    } else {
        lookup(es.drop_first(), t)
    }
}

proof fn lemma_lookup_found(es: Seq<Entry>, t: Seq<char>, k: int)
    requires
        0 <= k < es.len(),
        es[k].token@ == t,
        forall|m: int| 0 <= m < k ==> (#[trigger] es[m]).token@ != t,
    ensures
        lookup(es, t) == es[k].intervals@,
    decreases k,
{
    if k > 0 {
        assert(es[0].token@ != t);
        let rest = es.drop_first();
        assert forall|m: int| 0 <= m < k - 1 implies (#[trigger] rest[m]).token@ != t by {
            assert(rest[m] == es[m + 1]);
        }
        lemma_lookup_found(rest, t, k - 1);
    }
}

proof fn lemma_lookup_absent(es: Seq<Entry>, t: Seq<char>)
    requires
        forall|m: int| 0 <= m < es.len() ==> (#[trigger] es[m]).token@ != t,
    ensures
        lookup(es, t) == Seq::<Sequence>::empty(),
    decreases es.len(),
{
    if es.len() > 0 {
        assert(es[0].token@ != t);
        let rest = es.drop_first();
        assert forall|m: int| 0 <= m < rest.len() implies (#[trigger] rest[m]).token@ != t by {
            assert(rest[m] == es[m + 1]);
        }
        lemma_lookup_absent(rest, t);
    }
}

/// The line that shows one interval.
pub open spec fn interval_line(iv: (int, int)) -> Seq<char> {
    "\tstart: "@ + decimal(iv.0 as nat) + ", end: "@ + decimal(iv.1 as nat) + "\n"@
}

/// The lines of a list of intervals, in list order.
pub open spec fn interval_lines(ivs: Seq<Sequence>) -> Seq<char>
    decreases ivs.len(),
{
    if ivs.len() == 0 {
        Seq::empty()
    } else {
        interval_lines(ivs.drop_last()) + interval_line(ivs.last()@)
    }
}

/// The block that shows one token and its intervals.
pub open spec fn token_block(t: Seq<char>, ivs: Seq<Sequence>) -> Seq<char> {
    "sequence: "@ + t + ":\n"@ + interval_lines(ivs)
}

spec fn blocks(es: Seq<Entry>) -> Seq<char>
    decreases es.len(),
{
    if es.len() == 0 {
        Seq::empty()
    } else {
        blocks(es.drop_last()) + token_block(es.last().token@, es.last().intervals@)
    }
}

/// `iv` lies within `s` and the text there is `t`.
pub open spec fn places(s: Seq<char>, iv: Sequence, t: Seq<char>) -> bool {
    0 <= iv@.0 < iv@.1 <= s.len() && s.subrange(iv@.0, iv@.1) == t
}

impl Sequences {
    /// The tokens, in index order.
    pub closed spec fn tokens(&self) -> Seq<Seq<char>> {
        self.entries@.map_values(|e: Entry| e.token@)
    }

    /// The intervals recorded for `t`; empty where `t` is no token.
    pub closed spec fn occurrences(&self, t: Seq<char>) -> Seq<Sequence> {
        lookup(self.entries@, t)
    }

    /// The text that `render` produces.
    pub closed spec fn rendered(&self) -> Seq<char> {
        blocks(self.entries@) + "\n"@
    }

    /// Tokens ascend strictly; each token has at least one interval and
    /// none twice.
    pub closed spec fn wf(&self) -> bool {
        &&& forall|x: int, y: int|
            0 <= x < y < self.entries@.len() ==> text_lt(
                (#[trigger] self.entries@[x]).token@,
                (#[trigger] self.entries@[y]).token@,
            )
        &&& forall|x: int|
            0 <= x < self.entries@.len() ==> (#[trigger] self.entries@[x]).intervals@.len() > 0
                && self.entries@[x].intervals@.no_duplicates()
    }

    /// Every interval of every token lies in `s` and spells the token there.
    spec fn sound(&self, s: Seq<char>) -> bool {
        forall|x: int, y: int|
            0 <= x < self.entries@.len() && 0 <= y < self.entries@[x].intervals@.len() ==> places(
                s,
                #[trigger] self.entries@[x].intervals@[y],
                self.entries@[x].token@,
            )
    }

    /// This is the index of `s`: it holds exactly the intervals that the scan
    /// of `s` records, each under the text it spans.
    pub open spec fn indexes(&self, s: Seq<char>) -> bool {
        &&& self.wf()
        &&& forall|t: Seq<char>, iv: Sequence|
            #[trigger] self.occurrences(t).contains(iv) <==> (recorded(s, iv@.0, iv@.1) && t
                == s.subrange(iv@.0, iv@.1))
    }

    proof fn lemma_occurrences_at(&self, t: Seq<char>, k: int)
        requires
            self.wf(),
            0 <= k < self.entries@.len(),
            self.entries@[k].token@ == t,
        ensures
            self.occurrences(t) == self.entries@[k].intervals@,
    {
        assert forall|m: int| 0 <= m < k implies (#[trigger] self.entries@[m]).token@ != t by {
            assert(text_lt(self.entries@[m].token@, self.entries@[k].token@));
            lemma_text_lt_irreflexive(t);
        }
        lemma_lookup_found(self.entries@, t, k);
    }

    proof fn lemma_occurrences_of(&self, t: Seq<char>)
        requires
            self.wf(),
        ensures
            (forall|m: int|
                0 <= m < self.entries@.len() ==> (#[trigger] self.entries@[m]).token@ != t)
                ==> self.occurrences(t) == Seq::<Sequence>::empty(),
            forall|m: int|
                0 <= m < self.entries@.len() && (#[trigger] self.entries@[m]).token@ == t
                    ==> self.occurrences(t) == self.entries@[m].intervals@,
    {
        if forall|m: int| 0 <= m < self.entries@.len() ==> (#[trigger] self.entries@[m]).token@ != t {
            lemma_lookup_absent(self.entries@, t);
        }
        assert forall|m: int|
            0 <= m < self.entries@.len() && (#[trigger] self.entries@[m]).token@ == t implies self.occurrences(t)
            == self.entries@[m].intervals@ by {
            self.lemma_occurrences_at(t, m);
        }
    }

    /// A text is a token exactly when some interval is recorded for it.
    pub proof fn lemma_token_iff_occurs(&self, t: Seq<char>)
        requires
            self.wf(),
        ensures
            self.tokens().contains(t) <==> self.occurrences(t).len() > 0,
    {
        self.lemma_occurrences_of(t);
        if self.tokens().contains(t) {
            let k = choose|k: int| 0 <= k < self.tokens().len() && self.tokens()[k] == t;
            assert(self.entries@[k].token@ == t);
        }
        if self.occurrences(t).len() > 0 {
            if forall|m: int|
                0 <= m < self.entries@.len() ==> (#[trigger] self.entries@[m]).token@ != t {
            } else {
                let m = choose|m: int|
                    0 <= m < self.entries@.len() && (#[trigger] self.entries@[m]).token@ == t;
                assert(self.tokens()[m] == t);
            }
        }
    }

    /// Records `sequence` under the text of `source` that it spans.
    fn insert(&mut self, source: &str, text: &Vec<char>, sequence: Sequence)
        requires
            old(self).wf(),
            old(self).sound(text@),
            text@ == source@,
            sequence@.0 < sequence@.1 <= text@.len(),
        ensures
            final(self).wf(),
            final(self).sound(text@),
            forall|t: Seq<char>, iv: Sequence|
                #[trigger] final(self).occurrences(t).contains(iv) <==> (old(self).occurrences(
                    t,
                ).contains(iv) || (t == text@.subrange(sequence@.0, sequence@.1) && iv
                    == sequence)),
    {
        let ghost key = text@.subrange(sequence@.0, sequence@.1);
        let mut lo: usize = 0;
        let mut hi: usize = self.entries.len();
        while lo < hi
            invariant
                *self == *old(self),
                self.wf(),
                self.sound(text@),
                key == text@.subrange(sequence@.0, sequence@.1),
                sequence@.0 < sequence@.1 <= text@.len(),
                lo <= hi <= self.entries@.len(),
                forall|m: int| 0 <= m < lo ==> text_lt((#[trigger] self.entries@[m]).token@, key),
                forall|m: int|
                    hi <= m < self.entries@.len() ==> text_lt(key, (#[trigger] self.entries@[m]).token@),
            decreases hi - lo,
        {
            let mid = lo + (hi - lo) / 2;
            let first = self.entries[mid].intervals[0];
            assert(places(text@, first, self.entries@[mid as int].token@));
            match compare_ranges(text, sequence.start, sequence.end, first.start, first.end) {
                std::cmp::Ordering::Less => {
                    assert forall|m: int| mid <= m < self.entries@.len() implies text_lt(
                        key,
                        (#[trigger] self.entries@[m]).token@,
                    ) by {
                        if m > mid {
                            assert(text_lt(self.entries@[mid as int].token@, self.entries@[m].token@));
                            lemma_text_lt_transitive(
                                key,
                                self.entries@[mid as int].token@,
                                self.entries@[m].token@,
                            );
                        }
                    }
                    hi = mid;
                },
                std::cmp::Ordering::Greater => {
                    assert forall|m: int| 0 <= m <= mid implies text_lt(
                        (#[trigger] self.entries@[m]).token@,
                        key,
                    ) by {
                        if m < mid {
                            assert(text_lt(self.entries@[m].token@, self.entries@[mid as int].token@));
                            lemma_text_lt_transitive(
                                self.entries@[m].token@,
                                self.entries@[mid as int].token@,
                                key,
                            );
                        }
                    }
                    lo = mid + 1;
                },
                std::cmp::Ordering::Equal => {
                    self.add_interval(text, mid, sequence);
                    return;
                },
            }
        }
        let token = String::from_str(source.substring_char(sequence.start, sequence.end));
        let mut intervals: Vec<Sequence> = Vec::new();
        intervals.push(sequence);
        let ghost added = Entry { token, intervals };
        self.entries.insert(lo, Entry { token, intervals });
        proof {
            let olds = old(self).entries@;
            let news = self.entries@;
            olds.insert_ensures(lo as int, added);
            assert(news[lo as int] == added);
            assert(added.token@ == key);
            assert forall|x: int, y: int| 0 <= x < y < news.len() implies text_lt(
                (#[trigger] news[x]).token@,
                (#[trigger] news[y]).token@,
            ) by {
                let ox = if x < lo { x } else { x - 1 };
                let oy = if y <= lo { y } else { y - 1 };
                if x == lo {
                    assert(text_lt(key, olds[oy].token@));
                } else if y == lo {
                    assert(text_lt(olds[ox].token@, key));
                } else {
                    assert(news[x] == olds[ox]);
                    assert(news[y] == olds[oy]);
                    assert(text_lt(olds[ox].token@, olds[oy].token@));
                }
            }
            assert forall|x: int| 0 <= x < news.len() implies (#[trigger] news[x]).intervals@.len()
                > 0 && news[x].intervals@.no_duplicates() by {
                if x < lo {
                    assert(news[x] == olds[x]);
                } else if x > lo {
                    assert(news[x] == olds[x - 1]);
                }
            }
            assert(self.wf());
            assert forall|x: int, y: int|
                0 <= x < news.len() && 0 <= y < news[x].intervals@.len() implies places(
                text@,
                #[trigger] news[x].intervals@[y],
                news[x].token@,
            ) by {
                if x < lo {
                    assert(news[x] == olds[x]);
                    assert(places(text@, olds[x].intervals@[y], olds[x].token@));
                } else if x > lo {
                    assert(news[x] == olds[x - 1]);
                    assert(places(text@, olds[x - 1].intervals@[y], olds[x - 1].token@));
                }
            }
            assert(self.sound(text@));
            assert forall|t: Seq<char>, iv: Sequence|
                #[trigger] self.occurrences(t).contains(iv) <==> (old(self).occurrences(t).contains(
                    iv,
                ) || (t == key && iv == sequence)) by {
                self.lemma_occurrences_of(t);
                old(self).lemma_occurrences_of(t);
                if t == key {
                    self.lemma_occurrences_at(t, lo as int);
                    assert(self.occurrences(t) =~= seq![sequence]);
                    assert(self.occurrences(t)[0] == sequence);
                    assert forall|m: int| 0 <= m < olds.len() implies (#[trigger] olds[m]).token@
                        != t by {
                        if m < lo {
                            assert(text_lt(olds[m].token@, key));
                            lemma_text_lt_irreflexive(key);
                        } else {
                            assert(text_lt(key, olds[m].token@));
                            lemma_text_lt_irreflexive(key);
                        }
                    }
                } else if exists|m: int| 0 <= m < olds.len() && (#[trigger] olds[m]).token@ == t {
                    let m = choose|m: int| 0 <= m < olds.len() && (#[trigger] olds[m]).token@ == t;
                    let nm = if m < lo { m } else { m + 1 };
                    assert(news[nm] == olds[m]);
                    self.lemma_occurrences_at(t, nm);
                    old(self).lemma_occurrences_at(t, m);
                } else {
                    assert forall|m: int| 0 <= m < news.len() implies (#[trigger] news[m]).token@
                        != t by {
                        if m < lo {
                            assert(news[m] == olds[m]);
                        } else if m > lo {
                            assert(news[m] == olds[m - 1]);
                        }
                    }
                }
            }
        }
    }

    /// Adds `sequence` to the intervals of the entry at `k`, whose token is
    /// the text that `sequence` spans, unless it is there already.
    fn add_interval(&mut self, text: &Vec<char>, k: usize, sequence: Sequence)
        requires
            old(self).wf(),
            old(self).sound(text@),
            k < old(self).entries@.len(),
            sequence@.0 < sequence@.1 <= text@.len(),
            old(self).entries@[k as int].token@ == text@.subrange(sequence@.0, sequence@.1),
        ensures
            final(self).wf(),
            final(self).sound(text@),
            forall|t: Seq<char>, iv: Sequence|
                #[trigger] final(self).occurrences(t).contains(iv) <==> (old(self).occurrences(
                    t,
                ).contains(iv) || (t == text@.subrange(sequence@.0, sequence@.1) && iv
                    == sequence)),
    {
        let ghost key = text@.subrange(sequence@.0, sequence@.1);
        let mut y: usize = 0;
        while y < self.entries[k].intervals.len()
            invariant
                *self == *old(self),
                self.wf(),
                self.sound(text@),
                k < self.entries@.len(),
                self.entries@[k as int].token@ == text@.subrange(sequence@.0, sequence@.1),
                key == text@.subrange(sequence@.0, sequence@.1),
                y <= self.entries@[k as int].intervals@.len(),
                forall|z: int| 0 <= z < y ==> self.entries@[k as int].intervals@[z] != sequence,
            decreases self.entries@[k as int].intervals@.len() - y,
        {
            if self.entries[k].intervals[y] == sequence {
                proof {
                    assert forall|t: Seq<char>, iv: Sequence|
                        #[trigger] self.occurrences(t).contains(iv) <==> (old(
                            self,
                        ).occurrences(t).contains(iv) || (t == key && iv == sequence)) by {
                        if t == key {
                            self.lemma_occurrences_at(t, k as int);
                            assert(self.occurrences(t)[y as int] == sequence);
                        }
                    }
                }
                return;
            }
            y = y + 1;
        }
        self.entries[k].intervals.push(sequence);
        proof {
            let olds = old(self).entries@;
            let news = self.entries@;
            assert(news.len() == olds.len());
            assert forall|x: int| 0 <= x < news.len() && x != k implies #[trigger] news[x] == olds[x] by {}
            assert(news[k as int].token == olds[k as int].token);
            assert(news[k as int].intervals@ == olds[k as int].intervals@.push(sequence));
            assert forall|x: int, z: int| 0 <= x < z < news.len() implies text_lt(
                (#[trigger] news[x]).token@,
                (#[trigger] news[z]).token@,
            ) by {
                assert(text_lt(olds[x].token@, olds[z].token@));
            }
            assert forall|x: int| 0 <= x < news.len() implies (#[trigger] news[x]).intervals@.len()
                > 0 && news[x].intervals@.no_duplicates() by {
                if x == k {
                    let ivs = news[x].intervals@;
                    assert forall|a: int, b: int| 0 <= a < b < ivs.len() implies ivs[a] != ivs[b] by {
                        if b == ivs.len() - 1 {
                            assert(olds[x].intervals@[a] != sequence);
                        } else {
                            assert(olds[x].intervals@.no_duplicates());
                        }
                    }
                }
            }
            assert(self.wf());
            assert forall|x: int, z: int|
                0 <= x < news.len() && 0 <= z < news[x].intervals@.len() implies places(
                text@,
                #[trigger] news[x].intervals@[z],
                news[x].token@,
            ) by {
                if x != k || z < olds[x].intervals@.len() {
                    assert(news[x].intervals@[z] == olds[x].intervals@[z]);
                    assert(places(text@, olds[x].intervals@[z], olds[x].token@));
                }
            }
            assert forall|t: Seq<char>, iv: Sequence|
                #[trigger] self.occurrences(t).contains(iv) <==> (old(self).occurrences(t).contains(
                    iv,
                ) || (t == key && iv == sequence)) by {
                self.lemma_occurrences_of(t);
                old(self).lemma_occurrences_of(t);
                if t == key {
                    self.lemma_occurrences_at(t, k as int);
                    old(self).lemma_occurrences_at(t, k as int);
                    if old(self).occurrences(t).contains(iv) {
                        let z = choose|z: int| 0 <= z < olds[k as int].intervals@.len() && olds[k as int].intervals@[z] == iv;
                        assert(news[k as int].intervals@[z] == iv);
                    }
                    if iv == sequence {
                        assert(news[k as int].intervals@[olds[k as int].intervals@.len() as int] == iv);
                    }
                } else if exists|m: int| 0 <= m < olds.len() && (#[trigger] olds[m]).token@ == t {
                    let m = choose|m: int| 0 <= m < olds.len() && (#[trigger] olds[m]).token@ == t;
                    assert(news[m] == olds[m]);
                } else {
                    assert forall|m: int| 0 <= m < news.len() implies (#[trigger] news[m]).token@
                        != t by {
                        if m != k {
                            assert(news[m] == olds[m]);
                        }
                    }
                }
            }
        }
    }

    /// An empty index.
    pub fn new() -> (r: Sequences)
        ensures
            r.wf(),
            r.tokens().len() == 0,
            forall|t: Seq<char>| r.occurrences(t).len() == 0,
    {
        Sequences { entries: Vec::new() }
    }

    /// Scans `string` and indexes what the scan records: every single
    /// character at its own position, every prefix at `[0, length)`, and the
    /// repeated runs that the matched-run table finds, each under the text it
    /// spans.
    pub fn from(string: String) -> (r: Sequences)
        ensures
            r.indexes(string@),
    {
        let text = chars_of(string.as_str());
        let ghost s = text@;
        let n = text.len();
        let mut sequences = Sequences::new();
        // `prev[c]` holds the entry of the previous row at column `c + 1`.
        let mut prev = empty_row(n);
        let mut r: usize = 0;
        while r < n
            invariant
                s == text@,
                s == string@,
                n == s.len(),
                r <= n,
                prev@.len() == n,
                forall|c: int| r <= c + 1 <= n && 0 <= c ==> (#[trigger] prev@[c])@ == cell(s, r as int, c + 1),
                sequences.wf(),
                sequences.sound(s),
                forall|t: Seq<char>, iv: Sequence|
                    #[trigger] sequences.occurrences(t).contains(iv) <==> (recorded_before(
                        s,
                        r + 1,
                        r + 1,
                        iv@.0,
                        iv@.1,
                    ) && t == s.subrange(iv@.0, iv@.1)),
            decreases n - r,
        {
            let i = r + 1;
            let mut cur = empty_row(n);
            let mut c: usize = r;
            while c < n
                invariant
                    s == text@,
                    s == string@,
                    n == s.len(),
                    r < n,
                    i == r + 1,
                    r <= c <= n,
                    prev@.len() == n,
                    cur@.len() == n,
                    forall|x: int| r <= x + 1 <= n && 0 <= x ==> (#[trigger] prev@[x])@ == cell(s, r as int, x + 1),
                    forall|x: int| r <= x < c ==> (#[trigger] cur@[x])@ == cell(s, i as int, x + 1),
                    forall|x: int| c <= x < n ==> (#[trigger] cur@[x])@ == (0int, 0int),
                    sequences.wf(),
                    sequences.sound(s),
                    forall|t: Seq<char>, iv: Sequence|
                        #[trigger] sequences.occurrences(t).contains(iv) <==> (recorded_before(
                            s,
                            i as int,
                            c + 1,
                            iv@.0,
                            iv@.1,
                        ) && t == s.subrange(iv@.0, iv@.1)),
                decreases n - c,
            {
                let j = c + 1;
                if j == i {
                    let single = Sequence::new(j - 1, j);
                    sequences.insert(string.as_str(), &text, single);
                    let prefix = Sequence::new(0, j);
                    cur[c] = prefix;
                    sequences.insert(string.as_str(), &text, prefix);
                    proof {
                        assert forall|t: Seq<char>, iv: Sequence|
                            #[trigger] sequences.occurrences(t).contains(iv) <==> (recorded_before(
                                s,
                                i as int,
                                j as int + 1,
                                iv@.0,
                                iv@.1,
                            ) && t == s.subrange(iv@.0, iv@.1)) by {
                            lemma_step_advance(s, i as int, j as int, iv@.0, iv@.1);
                        }
                    }
                } else if text[r] == text[c] {
                    let p = prev[c - 1];
                    proof {
                        if r > 0 {
                            lemma_cell_bounds(s, r as int, c as int);
                        }
                        lemma_cell_bounds(s, i as int, j as int);
                    }
                    let fresh = j - i == 1 && p.end == 0;
                    let run = if fresh {
                        Sequence::new(j - 2, j)
                    } else {
                        Sequence::new(j - (p.end - p.start) - 1, j)
                    };
                    assert(run@ == cell(s, i as int, j as int));
                    assert(fresh == fresh_neighbours(s, i as int, j as int));
                    if !fresh && run.end - run.start > 1 {
                        sequences.insert(string.as_str(), &text, Sequence::new(run.start + 1, run.end));
                    }
                    cur[c] = run;
                    sequences.insert(string.as_str(), &text, run);
                    proof {
                        assert forall|t: Seq<char>, iv: Sequence|
                            #[trigger] sequences.occurrences(t).contains(iv) <==> (recorded_before(
                                s,
                                i as int,
                                j as int + 1,
                                iv@.0,
                                iv@.1,
                            ) && t == s.subrange(iv@.0, iv@.1)) by {
                            lemma_step_advance(s, i as int, j as int, iv@.0, iv@.1);
                        }
                    }
                } else {
                    proof {
                        assert(cell(s, i as int, j as int) == (0int, 0int));
                        assert forall|t: Seq<char>, iv: Sequence|
                            #[trigger] sequences.occurrences(t).contains(iv) <==> (recorded_before(
                                s,
                                i as int,
                                j as int + 1,
                                iv@.0,
                                iv@.1,
                            ) && t == s.subrange(iv@.0, iv@.1)) by {
                            lemma_step_advance(s, i as int, j as int, iv@.0, iv@.1);
                        }
                    }
                }
                c = c + 1;
            }
            proof {
                assert forall|t: Seq<char>, iv: Sequence|
                    #[trigger] sequences.occurrences(t).contains(iv) <==> (recorded_before(
                        s,
                        i + 1,
                        i + 1,
                        iv@.0,
                        iv@.1,
                    ) && t == s.subrange(iv@.0, iv@.1)) by {
                    lemma_row_advance(s, i as int, iv@.0, iv@.1);
                }
            }
            prev = cur;
            r = r + 1;
        }
        proof {
            assert forall|t: Seq<char>, iv: Sequence|
                #[trigger] sequences.occurrences(t).contains(iv) <==> (recorded(s, iv@.0, iv@.1) && t
                    == s.subrange(iv@.0, iv@.1)) by {
                lemma_all_rows(s, iv@.0, iv@.1);
            }
        }
        sequences
    }

    /// The intervals recorded for `string`, or none where it is no token.
    pub fn find(&self, string: &str) -> (r: Vec<Sequence>)
        ensures
            r@ == self.occurrences(string@),
            !self.tokens().contains(string@) ==> r@.len() == 0,
    {
        let key = String::from_str(string);
        let mut k: usize = 0;
        while k < self.entries.len()
            invariant
                key@ == string@,
                k <= self.entries@.len(),
                forall|m: int| 0 <= m < k ==> (#[trigger] self.entries@[m]).token@ != string@,
            decreases self.entries@.len() - k,
        {
            if self.entries[k].token == key {
                proof {
                    lemma_lookup_found(self.entries@, string@, k as int);
                }
                let mut found: Vec<Sequence> = Vec::new();
                let mut y: usize = 0;
                while y < self.entries[k].intervals.len()
                    invariant
                        k < self.entries@.len(),
                        y <= self.entries@[k as int].intervals@.len(),
                        found@ == self.entries@[k as int].intervals@.subrange(0, y as int),
                    decreases self.entries@[k as int].intervals@.len() - y,
                {
                    found.push(self.entries[k].intervals[y]);
                    y = y + 1;
                    assert(found@ =~= self.entries@[k as int].intervals@.subrange(0, y as int));
                }
                assert(found@ =~= self.entries@[k as int].intervals@);
                assert(self.tokens()[k as int] == string@);
                return found;
            }
            k = k + 1;
        }
        proof {
            lemma_lookup_absent(self.entries@, string@);
        }
        Vec::new()
    }

    /// The tokens, in ascending order.
    pub fn get_tokens(&self) -> (r: Vec<String>)
        ensures
            r@.len() == self.tokens().len(),
            forall|x: int| 0 <= x < r@.len() ==> (#[trigger] r@[x])@ == self.tokens()[x],
            self.wf() ==> forall|x: int, y: int|
                0 <= x < y < r@.len() ==> text_lt((#[trigger] r@[x])@, (#[trigger] r@[y])@),
    {
        let mut tokens: Vec<String> = Vec::new();
        let mut k: usize = 0;
        while k < self.entries.len()
            invariant
                k <= self.entries@.len(),
                tokens@.len() == k,
                forall|x: int| 0 <= x < k ==> (#[trigger] tokens@[x])@ == self.entries@[x].token@,
            decreases self.entries@.len() - k,
        {
            tokens.push(self.entries[k].token.clone());
            k = k + 1;
        }
        proof {
            if self.wf() {
                assert forall|x: int, y: int| 0 <= x < y < tokens@.len() implies text_lt(
                    (#[trigger] tokens@[x])@,
                    (#[trigger] tokens@[y])@,
                ) by {
                    assert(text_lt(self.entries@[x].token@, self.entries@[y].token@));
                }
            }
        }
        tokens
    }

    /// Each token, in ascending order, with the intervals recorded for it.
    pub fn render(&self) -> (r: String)
        ensures
            r@ == self.rendered(),
    {
        let mut text = String::new();
        let mut k: usize = 0;
        while k < self.entries.len()
            invariant
                k <= self.entries@.len(),
                text@ == blocks(self.entries@.subrange(0, k as int)),
            decreases self.entries@.len() - k,
        {
            let ghost before = text@;
            text.append("sequence: ");
            text.append(self.entries[k].token.as_str());
            text.append(":\n");
            let ghost head = text@;
            let mut y: usize = 0;
            while y < self.entries[k].intervals.len()
                invariant
                    k < self.entries@.len(),
                    y <= self.entries@[k as int].intervals@.len(),
                    text@ == head + interval_lines(
                        self.entries@[k as int].intervals@.subrange(0, y as int),
                    ),
                decreases self.entries@[k as int].intervals@.len() - y,
            {
                let iv = self.entries[k].intervals[y];
                let ghost prior = text@;
                text.append("\tstart: ");
                let s = display_number(iv.start as u64);
                text.append(s.as_str());
                text.append(", end: ");
                let e = display_number(iv.end as u64);
                text.append(e.as_str());
                text.append("\n");
                let ghost done = self.entries@[k as int].intervals@.subrange(0, y as int + 1);
                assert(done.drop_last() =~= self.entries@[k as int].intervals@.subrange(
                    0,
                    y as int,
                ));
                assert(text@ =~= prior + interval_line(iv@));
                y = y + 1;
            }
            assert(self.entries@[k as int].intervals@.subrange(
                0,
                self.entries@[k as int].intervals@.len() as int,
            ) =~= self.entries@[k as int].intervals@);
            let ghost es = self.entries@.subrange(0, k as int + 1);
            assert(es.drop_last() =~= self.entries@.subrange(0, k as int));
            assert(text@ =~= before + token_block(
                self.entries@[k as int].token@,
                self.entries@[k as int].intervals@,
            ));
            k = k + 1;
        }
        assert(self.entries@.subrange(0, self.entries@.len() as int) =~= self.entries@);
        text.append("\n");
        text
    }
}

/// Every interval that the scan records lies within the text and is not empty.
pub proof fn lemma_recorded_within(s: Seq<char>, a: int, b: int)
    requires
        recorded(s, a, b),
    ensures
        0 <= a < b <= s.len(),
{
    let (i, j) = choose|i: int, j: int| 1 <= i <= j <= s.len() && #[trigger] step_records(s, i, j, a, b);
    if i < j {
        lemma_cell_bounds(s, i, j);
    }
}

/// Every interval of the index of `s` lies within `s`, and the text of `s`
/// there is the token it is recorded under.
pub proof fn lemma_intervals_spell_their_token(s: Seq<char>, idx: Sequences, t: Seq<char>, iv: Sequence)
    requires
        idx.indexes(s),
        idx.occurrences(t).contains(iv),
    ensures
        0 <= iv@.0 < iv@.1 <= s.len(),
        s.subrange(iv@.0, iv@.1) == t,
{
    lemma_recorded_within(s, iv@.0, iv@.1);
}

/// The tokens of the index of `s` ascend strictly, so none is listed twice.
pub proof fn lemma_tokens_ascend(s: Seq<char>, idx: Sequences)
    requires
        idx.indexes(s),
    ensures
        forall|x: int, y: int|
            0 <= x < y < idx.tokens().len() ==> text_lt(
                #[trigger] idx.tokens()[x],
                #[trigger] idx.tokens()[y],
            ),
        idx.tokens().no_duplicates(),
{
    assert forall|x: int, y: int|
        0 <= x < y < idx.tokens().len() implies text_lt(
        #[trigger] idx.tokens()[x],
        #[trigger] idx.tokens()[y],
    ) by {
        assert(text_lt(idx.entries@[x].token@, idx.entries@[y].token@));
    }
    assert forall|x: int, y: int|
        0 <= x < idx.tokens().len() && 0 <= y < idx.tokens().len() && x != y implies idx.tokens()[x]
        != idx.tokens()[y] by {
        if x < y {
            assert(text_lt(idx.entries@[x].token@, idx.entries@[y].token@));
            lemma_text_lt_irreflexive(idx.tokens()[x]);
        } else {
            assert(text_lt(idx.entries@[y].token@, idx.entries@[x].token@));
            lemma_text_lt_irreflexive(idx.tokens()[y]);
        }
    }
}

/// Every single character of `s` is a token of its index, recorded at its
/// own position, and so is every non-empty prefix of `s`, recorded at
/// `[0, length)`.
pub proof fn lemma_characters_and_prefixes_indexed(s: Seq<char>, idx: Sequences)
    requires
        idx.indexes(s),
        s.len() <= usize::MAX,
    ensures
        forall|k: int|
            0 <= k < s.len() ==> idx.tokens().contains(#[trigger] s.subrange(k, k + 1))
                && exists|iv: Sequence|
                iv@ == (k, k + 1) && idx.occurrences(s.subrange(k, k + 1)).contains(iv),
        forall|k: int|
            1 <= k <= s.len() ==> idx.tokens().contains(#[trigger] s.subrange(0, k)) && exists|
                iv: Sequence,
            | iv@ == (0int, k) && idx.occurrences(s.subrange(0, k)).contains(iv),
{
    assert forall|k: int| 0 <= k < s.len() implies idx.tokens().contains(
        #[trigger] s.subrange(k, k + 1),
    ) && exists|iv: Sequence|
        iv@ == (k, k + 1) && idx.occurrences(s.subrange(k, k + 1)).contains(iv) by {
        let iv = Sequence { start: k as usize, end: (k + 1) as usize };
        assert(step_records(s, k + 1, k + 1, k, k + 1));
        assert(recorded(s, k, k + 1));
        assert(idx.occurrences(s.subrange(k, k + 1)).contains(iv));
        idx.lemma_token_iff_occurs(s.subrange(k, k + 1));
    }
    assert forall|k: int| 1 <= k <= s.len() implies idx.tokens().contains(
        #[trigger] s.subrange(0, k),
    ) && exists|iv: Sequence| iv@ == (0int, k) && idx.occurrences(s.subrange(0, k)).contains(iv) by {
        let iv = Sequence { start: 0, end: k as usize };
        assert(step_records(s, k, k, 0, k));
        assert(recorded(s, 0, k));
        assert(idx.occurrences(s.subrange(0, k)).contains(iv));
        idx.lemma_token_iff_occurs(s.subrange(0, k));
    }
}

} // verus!
