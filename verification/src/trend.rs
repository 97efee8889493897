//! Score history: the entries appended after each check, and how the trend
//! view selects and orders them. Reading and writing the history file, the
//! clock, and drawing the chart are left to the caller.
use vstd::prelude::*;

use crate::text::{
    before_char, before_char_exec, chars_of, lemma_text_lt_irreflexive, lemma_text_lt_total,
    lemma_text_lt_transitive, same_chars, string_of, text_lt, text_lt_exec,
};

verus! {

/// One line of the history: when, the average score, and each file's score.
pub struct HistoryEntry {
    pub timestamp: String,
    pub average_score: u32,
    pub files: Vec<(String, u32)>,
}

/// A number of days to look back.
#[derive(Clone, Copy)]
pub struct Days(u32);

impl Days {
    pub fn new(value: u32) -> (d: Self)
        ensures
            d.get_spec() == value,
    {
        Days(value)
    }

    pub closed spec fn get_spec(self) -> u32 {
        self.0
    }

    pub fn get(self) -> (v: u32)
        ensures
            v == self.get_spec(),
    {
        self.0
    }
}

/// Sum of the scores.
pub open spec fn score_sum(s: Seq<u32>) -> nat
    decreases s.len(),
{
    if s.len() == 0 {
        0
    } else {
        score_sum(s.drop_last()) + s.last() as nat
    }
}

/// The average score (rounded down); 0 when there are no scores.
pub open spec fn average(s: Seq<u32>) -> nat {
    if s.len() == 0 {
        0
    } else {
        score_sum(s) / s.len()
    }
}

proof fn lemma_sum_bounded(s: Seq<u32>, bound: nat)
    requires
        forall|i: int| 0 <= i < s.len() ==> s[i] <= bound,
    ensures
        score_sum(s) <= bound * s.len(),
    decreases s.len(),
{
    if s.len() > 0 {
        lemma_sum_bounded(s.drop_last(), bound);
        assert(bound * s.len() == bound * (s.len() - 1) + bound) by (nonlinear_arith);
    }
}

proof fn lemma_sum_prefix(s: Seq<u32>, i: int)
    requires
        0 <= i <= s.len(),
    ensures
        score_sum(s.take(i)) <= score_sum(s),
    decreases s.len() - i,
{
    if i < s.len() {
        assert(s.take(i + 1).drop_last() == s.take(i));
        lemma_sum_prefix(s, i + 1);
    } else {
        assert(s.take(i) == s);
    }
}

/// The average of the scores, rounded down, or 0 for none. Scores of 0–100
/// average to 0–100.
pub fn average_score(scores: &Vec<u32>) -> (avg: u32)
    requires
        score_sum(scores@) <= u32::MAX,
        scores@.len() <= u32::MAX,
    ensures
        avg == average(scores@),
        (forall|i: int| 0 <= i < scores@.len() ==> scores@[i] <= 100) ==> avg <= 100,
{
    if scores.len() == 0 {
        return 0;
    }
    let mut sum: u32 = 0;
    let mut i: usize = 0;
    while i < scores.len()
        invariant
            i <= scores@.len(),
            sum == score_sum(scores@.take(i as int)),
            score_sum(scores@) <= u32::MAX,
        decreases scores@.len() - i,
    {
        proof {
            assert(scores@.take(i + 1).drop_last() == scores@.take(i as int));
            lemma_sum_prefix(scores@, i + 1);
        }
        sum = sum + scores[i];
        i = i + 1;
    }
    assert(scores@.take(scores@.len() as int) == scores@);
    let n = scores.len() as u32;
    proof {
        if forall|i: int| 0 <= i < scores@.len() ==> scores@[i] <= 100 {
            lemma_sum_bounded(scores@, 100);
            let len = scores@.len();
            assert(score_sum(scores@) / len <= 100) by (nonlinear_arith)
                requires
                    score_sum(scores@) <= 100 * len,
                    len > 0,
            ;
        }
    }
    sum / n
}

/// The score last given to file `name` in `s`, if any.
pub open spec fn last_score(s: Seq<(String, u32)>, name: Seq<char>) -> Option<u32>
    decreases s.len(),
{
    if s.len() == 0 {
        None
    } else if s.last().0@ == name {
        Some(s.last().1)
    } else {
        last_score(s.drop_last(), name)
    }
}

/// No file name occurs twice in `r`.
pub open spec fn distinct_files(r: Seq<(String, u32)>) -> bool {
    forall|i: int, j: int|
        0 <= i < r.len() && 0 <= j < r.len() && i != j ==> #[trigger] r[i].0@ != #[trigger] r[j].0@
}

/// `r` holds each file that `s` scores, once, with the last score `s` gives it.
pub open spec fn latest_scores(r: Seq<(String, u32)>, s: Seq<(String, u32)>) -> bool {
    &&& distinct_files(r)
    &&& forall|i: int| 0 <= i < r.len() ==> last_score(s, #[trigger] r[i].0@) == Some(r[i].1)
    &&& forall|n: Seq<char>|
        #![trigger last_score(s, n)]
        last_score(s, n) is Some ==> exists|i: int| 0 <= i < r.len() && r[i].0@ == n
}

/// The scores of `s`, in order.
pub open spec fn scores_in(s: Seq<(String, u32)>) -> Seq<u32> {
    s.map_values(|p: (String, u32)| p.1)
}

/// The history entry for a check run at `timestamp`, from each file's score:
/// the average is taken over all the scores given, and the entry keeps each
/// file once, with the last score given to it.
pub fn history_entry(timestamp: String, file_scores: Vec<(String, u32)>) -> (e: HistoryEntry)
    requires
        score_sum(scores_in(file_scores@)) <= u32::MAX,
        file_scores@.len() <= u32::MAX,
    ensures
        e.timestamp == timestamp,
        e.average_score == average(scores_in(file_scores@)),
        latest_scores(e.files@, file_scores@),
{
    let ghost all = file_scores@;
    let mut scores: Vec<u32> = Vec::new();
    let mut files: Vec<(String, u32)> = Vec::new();
    for p in it: file_scores
        invariant
            it.seq() == all,
            scores@ == scores_in(all).take(it.index() as int),
            latest_scores(files@, all.take(it.index() as int)),
    {
        let ghost k = it.index();
        let ghost before = all.take(k as int);
        let ghost now = all.take(k + 1);
        assert(p == all[k as int]);
        assert(now.drop_last() == before);
        assert(now.last() == p);
        let name = chars_of(p.0.as_str());
        let mut j: usize = 0;
        while j < files.len() && !same_chars(&chars_of(files[j].0.as_str()), &name)
            invariant
                j <= files@.len(),
                name@ == p.0@,
                forall|q: int| 0 <= q < j ==> #[trigger] files@[q].0@ != p.0@,
            decreases files@.len() - j,
        {
            j = j + 1;
        }
        scores.push(p.1);
        assert(scores@ == scores_in(all).take(k + 1));
        let ghost old_files = files@;
        proof {
            assert forall|n: Seq<char>| #![trigger last_score(now, n)]
                last_score(now, n) == if n == p.0@ {
                    Some(p.1)
                } else {
                    last_score(before, n)
                } by {}
        }
        if j < files.len() {
            files.set(j, p);
            proof {
                assert forall|i: int, q: int|
                    0 <= i < files@.len() && 0 <= q < files@.len() && i != q implies
                    #[trigger] files@[i].0@ != #[trigger] files@[q].0@ by {
                    assert(old_files[i].0@ != old_files[q].0@);
                }
                assert forall|i: int| 0 <= i < files@.len() implies last_score(
                    now,
                    #[trigger] files@[i].0@,
                ) == Some(files@[i].1) by {
                    if i != j {
                        assert(old_files[i].0@ != old_files[j as int].0@);
                    }
                }
                assert forall|n: Seq<char>| #![trigger last_score(now, n)]
                    last_score(now, n) is Some implies exists|i: int|
                        0 <= i < files@.len() && files@[i].0@ == n by {
                    if n == p.0@ {
                        assert(files@[j as int].0@ == n);
                    } else {
                        assert(last_score(before, n) is Some);
                        let i = choose|i: int| 0 <= i < old_files.len() && old_files[i].0@ == n;
                        assert(files@[i].0@ == n);
                    }
                }
            }
        } else {
            files.push(p);
            proof {
                assert forall|i: int, q: int|
                    0 <= i < files@.len() && 0 <= q < files@.len() && i != q implies
                    #[trigger] files@[i].0@ != #[trigger] files@[q].0@ by {
                    if i < old_files.len() && q < old_files.len() {
                        assert(old_files[i].0@ != old_files[q].0@);
                    } else if i < old_files.len() {
                        assert(old_files[i].0@ != p.0@);
                    } else {
                        assert(old_files[q].0@ != p.0@);
                    }
                }
                assert forall|i: int| 0 <= i < files@.len() implies last_score(
                    now,
                    #[trigger] files@[i].0@,
                ) == Some(files@[i].1) by {
                    if i < old_files.len() {
                        assert(old_files[i].0@ != p.0@);
                        assert(files@[i] == old_files[i]);
                    }
                }
                assert forall|n: Seq<char>| #![trigger last_score(now, n)]
                    last_score(now, n) is Some implies exists|i: int|
                        0 <= i < files@.len() && files@[i].0@ == n by {
                    if n == p.0@ {
                        assert(files@[old_files.len() as int].0@ == n);
                    } else {
                        assert(last_score(before, n) is Some);
                        let i = choose|i: int| 0 <= i < old_files.len() && old_files[i].0@ == n;
                        assert(files@[i].0@ == n);
                    }
                }
            }
        }
    }
    assert(all.take(all.len() as int) == all);
    assert(scores_in(all).take(all.len() as int) == scores_in(all));
    let average_score = average_score(&scores);
    HistoryEntry { timestamp, average_score, files }
}

/// An instant as `(seconds since the Unix epoch, nanoseconds)`.
pub type Instant = (i64, u32);

/// Instants in time order.
pub open spec fn instant_le(a: Instant, b: Instant) -> bool {
    a.0 < b.0 || (a.0 == b.0 && a.1 <= b.1)
}

/// The start of the trend window: `days` whole days of 86400 seconds before
/// `now`, at the same fraction of a second.
pub fn cutoff_instant(now: Instant, days: Days) -> (c: Instant)
    requires
        now.0 - 86400 * days.get_spec() >= i64::MIN,
    ensures
        c.0 == now.0 - 86400 * days.get_spec(),
        c.1 == now.1,
{
    let d: i64 = days.get() as i64;
    assert(86400 * d <= 86400 * (u32::MAX as int)) by (nonlinear_arith)
        requires
            0 <= d <= u32::MAX,
    ;
    (now.0 - 86400 * d, now.1)
}

/// The instant an RFC 3339 timestamp denotes, as chrono parses it.
pub uninterp spec fn rfc3339_instant(s: Seq<char>) -> Option<(i64, u32)>;

/// `chrono::DateTime::parse_from_rfc3339`, read as seconds and nanoseconds
/// since the Unix epoch (`timestamp`, `timestamp_subsec_nanos`); `None` when
/// the text does not parse.
#[verifier::external_body]
fn parse_rfc3339(s: &str) -> (r: Option<Instant>)
    ensures
        r == rfc3339_instant(s@),
{
    match chrono::DateTime::parse_from_rfc3339(s) {
        Ok(t) => Some((t.timestamp(), t.timestamp_subsec_nanos())),
        Err(_) => None,
    }
}

/// An entry is recent when its timestamp parses and is not before the cutoff.
pub open spec fn is_recent(e: HistoryEntry, cutoff: Instant) -> bool {
    match rfc3339_instant(e.timestamp@) {
        Some(t) => instant_le(cutoff, t),
        None => false,
    }
}

/// The entries in `s` that are recent, in order.
pub open spec fn recent(s: Seq<HistoryEntry>, cutoff: Instant) -> Seq<HistoryEntry>
    decreases s.len(),
{
    if s.len() == 0 {
        Seq::empty()
    } else if is_recent(s.last(), cutoff) {
        recent(s.drop_last(), cutoff).push(s.last())
    } else {
        recent(s.drop_last(), cutoff)
    }
}

/// The entries recorded at or after `cutoff`, in their order; an entry whose
/// timestamp does not parse is left out.
pub fn recent_entries(entries: Vec<HistoryEntry>, cutoff: Instant) -> (r: Vec<HistoryEntry>)
    ensures
        r@ == recent(entries@, cutoff),
{
    let ghost all = entries@;
    let mut out: Vec<HistoryEntry> = Vec::new();
    for e in it: entries
        invariant
            it.seq() == all,
            out@ == recent(all.take(it.index() as int), cutoff),
    {
        let ghost k = it.index();
        assert(e == all[k as int]);
        assert(all.take(k + 1).drop_last() == all.take(k as int));
        let keep = match parse_rfc3339(e.timestamp.as_str()) {
            Some(t) => cutoff.0 < t.0 || (cutoff.0 == t.0 && cutoff.1 <= t.1),
            None => false,
        };
        if keep {
            out.push(e);
        }
    }
    assert(all.take(all.len() as int) == all);
    out
}

/// The day of a timestamp: the text before its first `T`.
pub open spec fn day_of(timestamp: Seq<char>) -> Seq<char> {
    before_char(timestamp, 'T')
}

/// The last entry of `s` recorded on day `d`.
pub open spec fn last_of_day(s: Seq<HistoryEntry>, d: Seq<char>) -> Option<HistoryEntry>
    decreases s.len(),
{
    if s.len() == 0 {
        None
    } else if day_of(s.last().timestamp@) == d {
        Some(s.last())
    } else {
        last_of_day(s.drop_last(), d)
    }
}

/// Days strictly increasing.
pub open spec fn days_sorted(r: Seq<(String, HistoryEntry)>) -> bool {
    forall|i: int, j: int| 0 <= i < j < r.len() ==> text_lt(#[trigger] r[i].0@, #[trigger] r[j].0@)
}

/// `r` holds, for each day that `s` has an entry on, that day and its last entry.
pub open spec fn days_of(r: Seq<(String, HistoryEntry)>, s: Seq<HistoryEntry>) -> bool {
    &&& forall|i: int| 0 <= i < r.len() ==> last_of_day(s, #[trigger] r[i].0@) == Some(r[i].1)
    &&& forall|d: Seq<char>|
        #![trigger last_of_day(s, d)]
        last_of_day(s, d) is Some ==> exists|i: int| 0 <= i < r.len() && r[i].0@ == d
}

/// The day of a timestamp.
fn day_exec(timestamp: &String) -> (d: String)
    ensures
        d@ == day_of(timestamp@),
{
    let cs = chars_of(timestamp.as_str());
    let d = before_char_exec(&cs, 'T');
    string_of(d.as_slice())
}

/// One entry per day, the last one recorded that day, in increasing order of day.
pub fn group_by_day(entries: Vec<HistoryEntry>) -> (r: Vec<(String, HistoryEntry)>)
    ensures
        days_sorted(r@),
        days_of(r@, entries@),
{
    let ghost all = entries@;
    let mut out: Vec<(String, HistoryEntry)> = Vec::new();
    assert(all.take(0) == Seq::<HistoryEntry>::empty());
    for e in it: entries
        invariant
            it.seq() == all,
            days_sorted(out@),
            days_of(out@, all.take(it.index() as int)),
    {
        let ghost k = it.index();
        let ghost before = all.take(k as int);
        let ghost now = all.take(k + 1);
        assert(e == all[k as int]);
        assert(now.drop_last() == before);
        assert(now.last() == e);
        let day = day_exec(&e.timestamp);
        let dc = chars_of(day.as_str());
        // Position of the first day that is not below `day`.
        let mut p: usize = 0;
        while p < out.len() && text_lt_exec(&chars_of(out[p].0.as_str()), &dc)
            invariant
                p <= out@.len(),
                dc@ == day@,
                forall|j: int| 0 <= j < p ==> text_lt(#[trigger] out@[j].0@, day@),
            decreases out@.len() - p,
        {
            p = p + 1;
        }
        let ghost old_out = out@;
        let same = p < out.len() && same_chars(&chars_of(out[p].0.as_str()), &dc);
        proof {
            assert forall|d: Seq<char>| #![trigger last_of_day(now, d)]
                last_of_day(now, d) == if d == day@ {
                    Some(e)
                } else {
                    last_of_day(before, d)
                } by {}
        }
        if same {
            out.set(p, (day, e));
            proof {
                assert forall|i: int, j: int| 0 <= i < j < out@.len() implies text_lt(
                    #[trigger] out@[i].0@,
                    #[trigger] out@[j].0@,
                ) by {
                    assert(text_lt(old_out[i].0@, old_out[j].0@));
                }
                assert forall|i: int| 0 <= i < out@.len() implies last_of_day(
                    now,
                    #[trigger] out@[i].0@,
                ) == Some(out@[i].1) by {
                    if i != p {
                        assert(text_lt(old_out[i].0@, old_out[p as int].0@) || text_lt(
                            old_out[p as int].0@,
                            old_out[i].0@,
                        ));
                        if old_out[i].0@ == day@ {
                            lemma_text_lt_irreflexive(day@);
                        }
                    }
                }
                assert forall|d: Seq<char>| #![trigger last_of_day(now, d)]
                    last_of_day(now, d) is Some implies exists|i: int|
                        0 <= i < out@.len() && out@[i].0@ == d by {
                    if d == day@ {
                        assert(out@[p as int].0@ == d);
                    } else {
                        assert(last_of_day(before, d) is Some);
                        let i = choose|i: int| 0 <= i < old_out.len() && old_out[i].0@ == d;
                        assert(out@[i].0@ == d);
                    }
                }
            }
        } else {
            out.insert(p, (day, e));
            proof {
                // Every day from `p` on is above the new one.
                assert forall|j: int| p <= j < old_out.len() implies text_lt(
                    day@,
                    #[trigger] old_out[j].0@,
                ) by {
                    lemma_text_lt_total(day@, old_out[p as int].0@);
                    if j > p {
                        assert(text_lt(old_out[p as int].0@, old_out[j].0@));
                        lemma_text_lt_transitive(day@, old_out[p as int].0@, old_out[j].0@);
                    }
                }
                assert forall|i: int, j: int| 0 <= i < j < out@.len() implies text_lt(
                    #[trigger] out@[i].0@,
                    #[trigger] out@[j].0@,
                ) by {
                    if j < p {
                        assert(out@[i] == old_out[i]);
                        assert(out@[j] == old_out[j]);
                    } else if i < p && j == p {
                    } else if i < p && j > p {
                        assert(out@[j] == old_out[j - 1]);
                        assert(text_lt(old_out[i].0@, old_out[j - 1].0@));
                    } else if i == p {
                        assert(out@[j] == old_out[j - 1]);
                    } else {
                        assert(out@[i] == old_out[i - 1]);
                        assert(out@[j] == old_out[j - 1]);
                        assert(text_lt(old_out[i - 1].0@, old_out[j - 1].0@));
                    }
                }
                assert forall|i: int| 0 <= i < out@.len() implies last_of_day(
                    now,
                    #[trigger] out@[i].0@,
                ) == Some(out@[i].1) by {
                    if i < p {
                        assert(out@[i] == old_out[i]);
                        assert(text_lt(old_out[i].0@, day@));
                        if old_out[i].0@ == day@ {
                            lemma_text_lt_irreflexive(day@);
                        }
                    } else if i > p {
                        assert(out@[i] == old_out[i - 1]);
                        assert(text_lt(day@, old_out[i - 1].0@));
                        if old_out[i - 1].0@ == day@ {
                            lemma_text_lt_irreflexive(day@);
                        }
                    }
                }
                assert forall|d: Seq<char>| #![trigger last_of_day(now, d)]
                    last_of_day(now, d) is Some implies exists|i: int|
                        0 <= i < out@.len() && out@[i].0@ == d by {
                    if d == day@ {
                        assert(out@[p as int].0@ == d);
                    } else {
                        assert(last_of_day(before, d) is Some);
                        let i = choose|i: int| 0 <= i < old_out.len() && old_out[i].0@ == d;
                        if i < p {
                            assert(out@[i] == old_out[i]);
                        } else {
                            assert(out@[i + 1] == old_out[i]);
                        }
                    }
                }
            }
        }
    }
    assert(all.take(all.len() as int) == all);
    out
}

} // verus!
