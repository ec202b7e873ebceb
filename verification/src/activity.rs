//! Whether a repository saw commits in each of the recent calendar months:
//! the months of commit timestamps, the months counted back from now, and
//! the check that every one of those months holds a commit.

use chrono::Datelike;
use vstd::prelude::*;

use crate::calendar::{month_holds, month_number, lemma_month_unique, lemma_thirty_days_back};
use crate::text::{chars_of, decimal, is_ascii_digit, line_at,
    line_bounds, lines, lines_from, parse_i64, parse_i64_at, trim, trim_bounds,
    lemma_decimal_value, lemma_line_end_bounds, lemma_lines_of_line_then_rest,
    lemma_trim_unchanged,
};

verus! {

/// The earliest Unix time (seconds) that chrono gives a calendar date:
/// January 1 of year -262143, 00:00:00 UTC.
pub const EARLIEST_TIMESTAMP: i64 = -8334601228800;

/// The latest Unix time (seconds) that chrono gives a calendar date:
/// December 31 of year 262142, 23:59:59 UTC.
pub const LATEST_TIMESTAMP: i64 = 8210266876799;

/// The step between two months counted back from now: 30 days, in seconds.
pub const MONTH_STEP_SECONDS: i64 = 2592000;

pub open spec fn in_calendar_range(ts: int) -> bool {
    EARLIEST_TIMESTAMP <= ts <= LATEST_TIMESTAMP
}

/// The UTC `(year, month)` of the Unix time `ts` (seconds): the month of the
/// proleptic Gregorian calendar that holds `ts`, for the timestamps of
/// chrono's date range; `None` outside it.
pub open spec fn utc_year_month(ts: i64) -> Option<(i32, u32)> {
    if in_calendar_range(ts as int) {
        Some(choose|m: (i32, u32)| month_holds(m, ts as int))
    } else {
        None
    }
}

/// Calls `chrono::DateTime::<Utc>::from_timestamp(ts, 0)` and reads `year()`
/// and `month()` of the result. Claimed, from chrono's source and
/// documentation: the result is `Some` exactly for the timestamps of chrono's
/// date range, and then it is the month of the proleptic Gregorian calendar
/// that holds `ts` in UTC (`month_holds`), which fixes it.
#[verifier::external_body]
fn year_month_of(ts: i64) -> (r: Option<(i32, u32)>)
    ensures
        r is Some <==> in_calendar_range(ts as int),
        r matches Some(m) ==> 1 <= m.1 <= 12,
        r matches Some(m) ==> month_holds(m, ts as int),
{
    match chrono::DateTime::from_timestamp(ts, 0) {
        Some(dt) => Some((dt.year(), dt.month())),
        None => None,
    }
}

/// The UTC `(year, month)` of the Unix time `ts`, or `None` outside chrono's
/// date range.
pub fn month_of_timestamp(ts: i64) -> (r: Option<(i32, u32)>)
    ensures
        r == utc_year_month(ts),
        r is Some <==> in_calendar_range(ts as int),
        r matches Some(m) ==> month_holds(m, ts as int),
{
    let r = year_month_of(ts);
    proof {
        if let Some(m) = r {
            let c = choose|c: (i32, u32)| month_holds(c, ts as int);
            assert(month_holds(c, ts as int));
            lemma_month_unique(c, m, ts as int);
        }
    }
    r
}

/// Calls `chrono::Utc::now().timestamp()`. Claimed: the value is the
/// timestamp of a date chrono can represent, and not before 1970: chrono
/// takes the time elapsed since the Unix epoch (and panics when the system
/// clock reads before 1970), whose seconds fit in an `i64` on Unix. Which
/// time it is, is the clock's.
#[verifier::external_body]
fn utc_now_timestamp() -> (r: i64)
    ensures
        in_calendar_range(r as int),
        0 <= r,
{
    chrono::Utc::now().timestamp()
}

/// A set of `(year, month)` pairs.
pub struct MonthSet {
    months: Vec<(i32, u32)>,
}

impl View for MonthSet {
    type V = Set<(i32, u32)>;

    closed spec fn view(&self) -> Set<(i32, u32)> {
        self.months@.to_set()
    }
}

impl MonthSet {
    /// No pair is held twice.
    pub closed spec fn wf(&self) -> bool {
        self.months@.no_duplicates()
    }

    /// The empty set.
    pub fn new() -> (r: Self)
        ensures
            r.wf(),
            r@ == Set::<(i32, u32)>::empty(),
    {
        let r = MonthSet { months: Vec::new() };
        assert(r@ =~= Set::<(i32, u32)>::empty());
        r
    }

    /// Whether `m` is in the set.
    pub fn contains(&self, m: &(i32, u32)) -> (r: bool)
        ensures
            r == self@.contains(*m),
    {
        let mut i: usize = 0;
        while i < self.months.len()
            invariant
                i <= self.months@.len(),
                forall|k: int| 0 <= k < i ==> self.months@[k] != *m,
            decreases self.months@.len() - i,
        {
            if self.months[i].0 == m.0 && self.months[i].1 == m.1 {
                assert(self.months@[i as int] == *m);
                return true;
            }
            i = i + 1;
        }
        false
    }

    /// Adds `m`; returns whether it was not in the set before.
    pub fn insert(&mut self, m: (i32, u32)) -> (r: bool)
        requires
            old(self).wf(),
        ensures
            final(self).wf(),
            final(self)@ == old(self)@.insert(m),
            r == !old(self)@.contains(m),
    {
        if self.contains(&m) {
            assert(self@.insert(m) =~= self@);
            false
        } else {
            let ghost before = self.months@;
            self.months.push(m);
            assert(self.months@ == before.push(m));
            assert forall|a: int, b: int|
                0 <= a < self.months@.len() && 0 <= b < self.months@.len() && a != b implies
                self.months@[a] != self.months@[b] by {
                if a == before.len() as int {
                    assert(!before.to_set().contains(m));
                    assert(before.contains(self.months@[b]));
                } else if b == before.len() as int {
                    assert(before.contains(self.months@[a]));
                }
            }
            proof {
                before.lemma_push_to_set_commute(m);
            }
            true
        }
    }

    /// The number of pairs in the set.
    pub fn len(&self) -> (r: usize)
        requires
            self.wf(),
        ensures
            r == self@.len(),
    {
        proof {
            self.months@.unique_seq_to_set();
        }
        self.months.len()
    }

    /// The set of the pairs in `ms`.
    pub fn from_months(ms: Vec<(i32, u32)>) -> (r: Self)
        ensures
            r.wf(),
            r@ == ms@.to_set(),
    {
        let mut r = MonthSet::new();
        let mut i: usize = 0;
        while i < ms.len()
            invariant
                i <= ms@.len(),
                r.wf(),
                r@ == ms@.take(i as int).to_set(),
            decreases ms@.len() - i,
        {
            r.insert(ms[i]);
            assert(ms@.take(i + 1) == ms@.take(i as int).push(ms@[i as int]));
            proof {
                ms@.take(i as int).lemma_push_to_set_commute(ms@[i as int]);
            }
            i = i + 1;
        }
        assert(ms@.take(ms@.len() as int) == ms@);
        r
    }
}

/// The months in which some of `timestamps` fall.
pub open spec fn months_of(timestamps: Seq<i64>) -> Set<(i32, u32)> {
    Set::new(
        |m: (i32, u32)|
            exists|i: int| 0 <= i < timestamps.len() && utc_year_month(timestamps[i]) == Some(m),
    )
}

/// The set of UTC `(year, month)` pairs of the timestamps that have a
/// calendar date; the others are skipped.
pub fn extract_months_from_timestamps(timestamps: &[i64]) -> (r: MonthSet)
    ensures
        r.wf(),
        r@ == months_of(timestamps@),
        r@.len() <= timestamps@.len(),
        forall|m: (i32, u32)| #[trigger] r@.contains(m) ==> 1 <= m.1 <= 12,
        forall|m: (i32, u32)|
            #[trigger] r@.contains(m) ==> exists|i: int|
                0 <= i < timestamps@.len() && month_holds(m, timestamps@[i] as int),
        forall|i: int|
            0 <= i < timestamps@.len() && in_calendar_range(#[trigger] timestamps@[i] as int)
                ==> exists|m: (i32, u32)| r@.contains(m) && month_holds(m, timestamps@[i] as int),
{
    let mut r = MonthSet::new();
    let mut i: usize = 0;
    assert(months_of(timestamps@.take(0)) =~= Set::<(i32, u32)>::empty());
    while i < timestamps.len()
        invariant
            i <= timestamps@.len(),
            r.wf(),
            r@.finite(),
            r@.len() <= i,
            forall|m: (i32, u32)| #[trigger] r@.contains(m) ==> 1 <= m.1 <= 12,
            forall|m: (i32, u32)|
                #[trigger] r@.contains(m) ==> exists|k: int|
                    0 <= k < i && month_holds(m, timestamps@[k] as int),
            r@ == months_of(timestamps@.take(i as int)),
            forall|k: int|
                0 <= k < i && in_calendar_range(#[trigger] timestamps@[k] as int) ==> exists|
                    m: (i32, u32),
                | r@.contains(m) && month_holds(m, timestamps@[k] as int),
        decreases timestamps@.len() - i,
    {
        let ts = timestamps[i];
        let ghost prev = timestamps@.take(i as int);
        let ghost next = timestamps@.take(i + 1);
        assert(next == prev.push(ts));
        match month_of_timestamp(ts) {
            Some(m) => {
                let ghost old_set = r@;
                r.insert(m);
                assert forall|x: (i32, u32)| #[trigger] r@.contains(x) implies exists|k: int|
                    0 <= k < i + 1 && month_holds(x, timestamps@[k] as int) by {
                    if x != m {
                        assert(old_set.contains(x));
                    }
                }
                assert forall|k: int|
                    0 <= k < i + 1 && in_calendar_range(#[trigger] timestamps@[k] as int) implies exists|
                        x: (i32, u32),
                    | r@.contains(x) && month_holds(x, timestamps@[k] as int) by {
                    if k < i {
                        let x = choose|x: (i32, u32)| old_set.contains(x) && month_holds(x, timestamps@[k] as int);
                        assert(r@.contains(x));
                    } else {
                        assert(r@.contains(m));
                    }
                }
                assert(months_of(next) =~= months_of(prev).insert(m)) by {
                    assert(next[i as int] == ts);
                    assert forall|x: (i32, u32)| #[trigger] months_of(prev).contains(x) implies months_of(next).contains(x) by {
                        let k = choose|k: int| 0 <= k < prev.len() && utc_year_month(prev[k]) == Some(x);
                        assert(next[k] == prev[k]);
                    }
                    assert forall|x: (i32, u32)| #[trigger] months_of(next).contains(x) && x != m implies months_of(prev).contains(x) by {
                        let k = choose|k: int| 0 <= k < next.len() && utc_year_month(next[k]) == Some(x);
                        assert(prev[k] == next[k]);
                    }
                }
            },
            None => {
                assert(months_of(next) =~= months_of(prev)) by {
                    assert(next[i as int] == ts);
                    assert forall|x: (i32, u32)| #[trigger] months_of(prev).contains(x) implies months_of(next).contains(x) by {
                        let k = choose|k: int| 0 <= k < prev.len() && utc_year_month(prev[k]) == Some(x);
                        assert(next[k] == prev[k]);
                    }
                    assert forall|x: (i32, u32)| #[trigger] months_of(next).contains(x) implies months_of(prev).contains(x) by {
                        let k = choose|k: int| 0 <= k < next.len() && utc_year_month(next[k]) == Some(x);
                        assert(prev[k] == next[k]);
                    }
                }
            },
        }
        i = i + 1;
    }
    assert(timestamps@.take(timestamps@.len() as int) == timestamps@);
    r
}

/// Whether every month of `target` is in `seen`.
pub fn all_months_present(target: &[(i32, u32)], seen: &MonthSet) -> (r: bool)
    ensures
        r == (forall|i: int| 0 <= i < target@.len() ==> seen@.contains(#[trigger] target@[i])),
{
    let mut i: usize = 0;
    while i < target.len()
        invariant
            i <= target@.len(),
            forall|k: int| 0 <= k < i ==> seen@.contains(#[trigger] target@[k]),
        decreases target@.len() - i,
    {
        if !seen.contains(&target[i]) {
            return false;
        }
        i = i + 1;
    }
    true
}

/// Whether the months counted back from `now` over `n` steps all have a
/// calendar date: `n` is zero, or `now` and the earliest of them lie in
/// chrono's range.
pub open spec fn supports_months_back(now: int, n: int) -> bool {
    n == 0 || (in_calendar_range(now) && in_calendar_range(now - MONTH_STEP_SECONDS * (n - 1)))
}

/// The `(year, month)` of `now`, of 30 days before, of 60 days before, and
/// so on, `n` of them.
pub open spec fn months_back(now: int, n: nat) -> Seq<(i32, u32)> {
    Seq::new(n, |i: int| utc_year_month((now - MONTH_STEP_SECONDS * i) as i64)->0)
}

/// Each month of `v` is the one before it or lies one or two months earlier.
pub open spec fn steps_back_monthly(v: Seq<(i32, u32)>) -> bool {
    forall|i: int|
        0 <= i < v.len() - 1 ==> month_number(#[trigger] v[i + 1]) <= month_number(v[i])
            <= month_number(v[i + 1]) + 2
}

/// The months of `now` and of the `n - 1` instants 30, 60, ... days before it.
pub fn recent_months_at(now: i64, n: usize) -> (r: Vec<(i32, u32)>)
    requires
        supports_months_back(now as int, n as int),
    ensures
        r@ == months_back(now as int, n as nat),
        forall|i: int|
            0 <= i < n ==> utc_year_month((now - MONTH_STEP_SECONDS * i) as i64) == Some(
                #[trigger] r@[i],
            ),
        forall|i: int|
            0 <= i < n ==> month_holds(#[trigger] r@[i], now - MONTH_STEP_SECONDS * i),
        steps_back_monthly(r@),
{
    let mut r: Vec<(i32, u32)> = Vec::new();
    let mut i: usize = 0;
    while i < n
        invariant
            i <= n,
            supports_months_back(now as int, n as int),
            r@.len() == i,
            forall|k: int|
                0 <= k < i ==> utc_year_month((now - MONTH_STEP_SECONDS * k) as i64) == Some(
                    #[trigger] r@[k],
                ),
            forall|k: int|
                0 <= k < i ==> month_holds(#[trigger] r@[k], now - MONTH_STEP_SECONDS * k),
            steps_back_monthly(r@),
        decreases n - i,
    {
        assert(MONTH_STEP_SECONDS * i <= MONTH_STEP_SECONDS * (n - 1));
        let ts: i64 = now - MONTH_STEP_SECONDS * (i as i64);
        match month_of_timestamp(ts) {
            Some(m) => {
                let ghost prev = r@;
                r.push(m);
                proof {
                    if i > 0 {
                        let later = prev[i - 1];
                        assert(ts == (now - MONTH_STEP_SECONDS * (i - 1)) - 30 * 86400);
                        lemma_thirty_days_back(later, m, now - MONTH_STEP_SECONDS * (i - 1));
                    }
                    assert forall|k: int| 0 <= k < r@.len() - 1 implies month_number(
                        #[trigger] r@[k + 1],
                    ) <= month_number(r@[k]) <= month_number(r@[k + 1]) + 2 by {
                        if k < i - 1 {
                            assert(r@[k + 1] == prev[k + 1] && r@[k] == prev[k]);
                        }
                    }
                }
            },
            None => {
                assert(false);
            },
        }
        i = i + 1;
    }
    assert(r@ =~= months_back(now as int, n as nat));
    r
}

/// The most months that can always be counted back from a clock reading:
/// from the Unix epoch, 3215509 steps of 30 days stay within chrono's range.
pub const MONTHS_ALWAYS_COUNTABLE: usize = 3215510;

/// The months counted back from the current time, `n` of them (see
/// `recent_months_at`); `None` where the earliest of them would fall before
/// chrono's first date, which needs more than `MONTHS_ALWAYS_COUNTABLE`.
pub fn recent_months(n: usize) -> (r: Option<Vec<(i32, u32)>>)
    ensures
        n <= MONTHS_ALWAYS_COUNTABLE ==> r is Some,
        r matches Some(v) ==> exists|now: i64|
            0 <= now && supports_months_back(now as int, n as int) && v@ == months_back(
                now as int,
                n as nat,
            ) && (forall|i: int|
                0 <= i < n ==> month_holds(#[trigger] v@[i], now - MONTH_STEP_SECONDS * i)),
        r matches Some(v) ==> v@.len() == n && steps_back_monthly(v@),
        r is None ==> exists|now: i64|
            0 <= now && in_calendar_range(now as int) && !supports_months_back(
                now as int,
                n as int,
            ),
{
    let now = utc_now_timestamp();
    if n > 0 && (now as i128) - 2592000i128 * ((n - 1) as i128) < (EARLIEST_TIMESTAMP as i128) {
        return None;
    }
    let v = recent_months_at(now, n);
    Some(v)
}

/// Keeps the values that parse; the others drop out.
pub open spec fn timestamps_of_lines(ls: Seq<Seq<char>>) -> Seq<i64>
    decreases ls.len(),
{
    if ls.len() == 0 {
        seq![]
    } else {
        (match parse_i64(trim(ls[0])) {
            Some(v) => seq![v],
            None => seq![],
        }) + timestamps_of_lines(ls.drop_first())
    }
}

/// The commit timestamps in the output of `git log --pretty=format:%ct`:
/// every line that, trimmed, parses as an `i64`.
pub open spec fn log_timestamps(output: Seq<char>) -> Seq<i64> {
    timestamps_of_lines(lines(output))
}

/// The values of the lines of `output` that, trimmed, parse as `i64`, in order.
pub fn parse_timestamps(output: &str) -> (r: Vec<i64>)
    ensures
        r@ == log_timestamps(output@),
{
    let cs = chars_of(output);
    let mut r: Vec<i64> = Vec::new();
    let mut start: usize = 0;
    while start < cs.len()
        invariant
            start <= cs@.len(),
            r@ + timestamps_of_lines(lines_from(cs@, start as int)) == timestamps_of_lines(
                lines_from(cs@, 0),
            ),
        decreases cs@.len() - start,
    {
        let (hi, e) = line_bounds(&cs, start);
        let (a, b) = trim_bounds(&cs, start, hi);
        let p = parse_i64_at(&cs, a, b);
        let ghost line = line_at(cs@, start as int);
        let ghost rest = lines_from(cs@, e + 1);
        proof {
            lemma_line_end_bounds(cs@, start as int);
            assert(lines_from(cs@, start as int) == seq![line] + rest);
            assert((seq![line] + rest).drop_first() == rest);
            assert((seq![line] + rest)[0] == line);
            assert(p == parse_i64(trim(line)));
        }
        let ghost before = r@;
        match p {
            Some(v) => {
                r.push(v);
                assert(r@ == before + seq![v]);
            },
            None => {},
        }
        if e < cs.len() {
            start = e + 1;
        } else {
            assert(lines_from(cs@, e + 1) == Seq::<Seq<char>>::empty());
            start = cs.len();
        }
        assert(r@ + timestamps_of_lines(lines_from(cs@, start as int)) =~= before
            + timestamps_of_lines(seq![line] + rest));
    }
    r
}

/// Whether every month of `target` holds one of `timestamps`.
pub open spec fn covers_months(target: Seq<(i32, u32)>, timestamps: Seq<i64>) -> bool {
    forall|i: int| 0 <= i < target.len() ==> months_of(timestamps).contains(#[trigger] target[i])
}

/// The verdict on a repository from its `git log` run: `false` when the run
/// failed, else whether every month of `target` holds a commit of the log.
pub fn commits_cover_months(target: &[(i32, u32)], log_succeeded: bool, log_output: &str) -> (r:
    bool)
    ensures
        r == (log_succeeded && covers_months(target@, log_timestamps(log_output@))),
{
    if !log_succeeded {
        return false;
    }
    let timestamps = parse_timestamps(log_output);
    let seen = extract_months_from_timestamps(timestamps.as_slice());
    all_months_present(target, &seen)
}

/// The verdict on a repository at time `now`: whether its `git log
/// --since=3.months --pretty=format:%ct` succeeded with output `log_output`
/// holding a commit in each of the three months counted back from `now`.
pub fn commit_activity_at(now: i64, log_succeeded: bool, log_output: &str) -> (r: bool)
    requires
        supports_months_back(now as int, 3),
    ensures
        r == (log_succeeded && covers_months(months_back(now as int, 3), log_timestamps(log_output@))),
{
    let target = recent_months_at(now, 3);
    commits_cover_months(target.as_slice(), log_succeeded, log_output)
}

/// Whether the repository whose `git log --since=3.months --pretty=format:%ct`
/// ended as `log_succeeded` with output `log_output` has a commit in each of
/// the three months counted back from the current time; `false` whenever the
/// log failed.
pub fn check_commit_last_three_month(log_succeeded: bool, log_output: &str) -> (r: bool)
    ensures
        !log_succeeded ==> !r,
        exists|now: i64|
            0 <= now && supports_months_back(now as int, 3) && r == (log_succeeded
                && covers_months(months_back(now as int, 3), log_timestamps(log_output@))),
{
    let now = utc_now_timestamp();
    let r = commit_activity_at(now, log_succeeded, log_output);
    assert(0 <= now && supports_months_back(now as int, 3) && r == (log_succeeded && covers_months(
        months_back(now as int, 3),
        log_timestamps(log_output@),
    )));
    r
}

/// The months of a run of timestamps are the months of its parts: splitting,
/// joining or reordering the commit log changes nothing.
pub proof fn lemma_months_of_concat(a: Seq<i64>, b: Seq<i64>)
    ensures
        months_of(a + b) == months_of(a).union(months_of(b)),
{
    assert forall|m: (i32, u32)| #[trigger] months_of(a + b).contains(m) implies months_of(
        a,
    ).union(months_of(b)).contains(m) by {
        let k = choose|k: int| 0 <= k < (a + b).len() && utc_year_month((a + b)[k]) == Some(m);
        if k < a.len() {
            assert((a + b)[k] == a[k]);
        } else {
            assert((a + b)[k] == b[k - a.len()]);
        }
    }
    assert forall|m: (i32, u32)| #[trigger] months_of(a).union(months_of(b)).contains(m) implies months_of(
        a + b,
    ).contains(m) by {
        if months_of(a).contains(m) {
            let k = choose|k: int| 0 <= k < a.len() && utc_year_month(a[k]) == Some(m);
            assert((a + b)[k] == a[k]);
        } else {
            let k = choose|k: int| 0 <= k < b.len() && utc_year_month(b[k]) == Some(m);
            assert((a + b)[k + a.len()] == b[k]);
        }
    }
    assert(months_of(a + b) =~= months_of(a).union(months_of(b)));
}

/// More commits never take coverage away: months covered by a log stay
/// covered when further commit timestamps are added to it.
pub proof fn lemma_coverage_grows_with_log(
    target: Seq<(i32, u32)>,
    timestamps: Seq<i64>,
    more: Seq<i64>,
)
    requires
        covers_months(target, timestamps),
    ensures
        covers_months(target, timestamps + more),
        covers_months(target, more + timestamps),
{
    lemma_months_of_concat(timestamps, more);
    lemma_months_of_concat(more, timestamps);
    assert forall|i: int| 0 <= i < target.len() implies months_of(timestamps + more).contains(
        #[trigger] target[i],
    ) by {
        assert(months_of(timestamps).contains(target[i]));
    }
    assert forall|i: int| 0 <= i < target.len() implies months_of(more + timestamps).contains(
        #[trigger] target[i],
    ) by {
        assert(months_of(timestamps).contains(target[i]));
    }
}

/// The text `git log --pretty=format:%ct` writes for commit times `ts`:
/// each in decimal, each followed by a line break.
pub open spec fn rendered_log(ts: Seq<i64>) -> Seq<char>
    decreases ts.len(),
{
    if ts.len() == 0 {
        seq![]
    } else {
        decimal(ts[0] as nat) + seq!['\n'] + rendered_log(ts.drop_first())
    }
}

/// What git writes is read back: the timestamps of a log made of commit
/// times (Unix seconds, not negative) are exactly those times, in order.
pub proof fn lemma_rendered_log_reads_back(ts: Seq<i64>)
    requires
        forall|i: int| 0 <= i < ts.len() ==> ts[i] >= 0,
    ensures
        log_timestamps(rendered_log(ts)) == ts,
    decreases ts.len(),
{
    if ts.len() > 0 {
        let n = ts[0] as nat;
        let d = decimal(n);
        let rest = ts.drop_first();
        lemma_decimal_value(n);
        assert forall|i: int| 0 <= i < rest.len() implies rest[i] >= 0 by {
            assert(rest[i] == ts[i + 1]);
        }
        lemma_rendered_log_reads_back(rest);
        assert(is_ascii_digit(d[0]));
        assert(is_ascii_digit(d[d.len() - 1]));
        assert forall|i: int| 0 <= i < d.len() implies d[i] != '\n' by {
            assert(is_ascii_digit(d[i]));
        }
        lemma_lines_of_line_then_rest(d, rendered_log(rest));
        lemma_trim_unchanged(d);
        assert(parse_i64(d) == Some(ts[0]));
        let ls = lines(rendered_log(ts));
        assert(ls == seq![d] + lines(rendered_log(rest)));
        assert(ls[0] == d);
        assert(ls.drop_first() == lines(rendered_log(rest)));
    }
}

/// Every value read from lines `ls` comes from one of them.
pub proof fn lemma_timestamp_from_line(ls: Seq<Seq<char>>, v: i64)
    requires
        timestamps_of_lines(ls).contains(v),
    ensures
        exists|l: Seq<char>| ls.contains(l) && parse_i64(trim(l)) == Some(v),
    decreases ls.len(),
{
    let head = match parse_i64(trim(ls[0])) {
        Some(x) => seq![x],
        None => seq![],
    };
    let rest = timestamps_of_lines(ls.drop_first());
    let k = choose|k: int| 0 <= k < timestamps_of_lines(ls).len() && timestamps_of_lines(ls)[k] == v;
    assert(timestamps_of_lines(ls) == head + rest);
    if k < head.len() {
        assert((head + rest)[k] == head[k]);
        assert(parse_i64(trim(ls[0])) == Some(v));
        assert(ls.contains(ls[0]));
    } else {
        assert((head + rest)[k] == rest[k - head.len()]);
        assert(rest.contains(v));
        lemma_timestamp_from_line(ls.drop_first(), v);
        let l = choose|l: Seq<char>| ls.drop_first().contains(l) && parse_i64(trim(l)) == Some(v);
        let j = choose|j: int| 0 <= j < ls.drop_first().len() && ls.drop_first()[j] == l;
        assert(ls[j + 1] == l);
        assert(ls.contains(l));
    }
}

/// Every line of `ls` that parses contributes its value.
pub proof fn lemma_line_gives_timestamp(ls: Seq<Seq<char>>, l: Seq<char>, v: i64)
    requires
        ls.contains(l),
        parse_i64(trim(l)) == Some(v),
    ensures
        timestamps_of_lines(ls).contains(v),
    decreases ls.len(),
{
    let head = match parse_i64(trim(ls[0])) {
        Some(x) => seq![x],
        None => seq![],
    };
    let rest = timestamps_of_lines(ls.drop_first());
    assert(timestamps_of_lines(ls) == head + rest);
    if ls[0] == l {
        assert((head + rest)[0] == v);
    } else {
        let j = choose|j: int| 0 <= j < ls.len() && ls[j] == l;
        assert(ls.drop_first()[j - 1] == l);
        lemma_line_gives_timestamp(ls.drop_first(), l, v);
        let k = choose|k: int| 0 <= k < rest.len() && rest[k] == v;
        assert((head + rest)[head.len() + k] == v);
    }
}

/// Extra lines in the log never take coverage away: where every line of
/// one `git log` output is also a line of another, the months that the
/// first covers, the second covers too; so at one time `now`, a verdict
/// `commit_activity_at(now, true, out1)` that is `true` stays `true` for
/// `out2`.
pub proof fn lemma_more_log_lines_keep_coverage(
    target: Seq<(i32, u32)>,
    out1: Seq<char>,
    out2: Seq<char>,
)
    requires
        forall|l: Seq<char>| lines(out1).contains(l) ==> lines(out2).contains(l),
        covers_months(target, log_timestamps(out1)),
    ensures
        covers_months(target, log_timestamps(out2)),
{
    let ts1 = log_timestamps(out1);
    let ts2 = log_timestamps(out2);
    assert forall|i: int| 0 <= i < target.len() implies months_of(ts2).contains(
        #[trigger] target[i],
    ) by {
        let m = target[i];
        assert(months_of(ts1).contains(m));
        let k = choose|k: int| 0 <= k < ts1.len() && utc_year_month(ts1[k]) == Some(m);
        let v = ts1[k];
        assert(ts1.contains(v));
        lemma_timestamp_from_line(lines(out1), v);
        let l = choose|l: Seq<char>| lines(out1).contains(l) && parse_i64(trim(l)) == Some(v);
        lemma_line_gives_timestamp(lines(out2), l, v);
        let j = choose|j: int| 0 <= j < ts2.len() && ts2[j] == v;
        assert(utc_year_month(ts2[j]) == Some(m));
    }
}

} // verus!
