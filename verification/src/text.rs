//! Text processing on character sequences: line splitting, whitespace
//! trimming and decimal integer parsing, each specified over `Seq<char>`
//! with the meaning that Rust's `str::lines`, `str::trim` and
//! `i64::from_str` document.

use vstd::prelude::*;

verus! {

/// Unicode `White_Space` property, the predicate behind `char::is_whitespace`.
pub open spec fn is_white_space(c: char) -> bool {
    let u = c as u32;
    ||| 0x9 <= u <= 0xD
    ||| u == 0x20
    ||| u == 0x85
    ||| u == 0xA0
    ||| u == 0x1680
    ||| 0x2000 <= u <= 0x200A
    ||| u == 0x2028
    ||| u == 0x2029
    ||| u == 0x202F
    ||| u == 0x205F
    ||| u == 0x3000
}

/// Whether `c` has the Unicode `White_Space` property.
pub fn is_white_space_char(c: char) -> (r: bool)
    ensures
        r == is_white_space(c),
{
    let u = c as u32;
    (0x9 <= u && u <= 0xD) || u == 0x20 || u == 0x85 || u == 0xA0 || u == 0x1680 || (0x2000
        <= u && u <= 0x200A) || u == 0x2028 || u == 0x2029 || u == 0x202F || u == 0x205F || u
        == 0x3000
}

/// The characters of `s`, in order.
pub fn chars_of(s: &str) -> (r: Vec<char>)
    ensures
        r@ == s@,
{
    broadcast use vstd::string::group_string_axioms;

    let mut v: Vec<char> = Vec::new();
    for c in it: s.chars()
        invariant
            it.seq() == s@,
            v@ == it.seq().take(it.index() as int),
        ensures
            v@ == s@,
    {
        assert(it.seq().take(it.index() + 1) == it.seq().take(it.index() as int).push(c));
        v.push(c);
    }
    v
}

/// Index of the first `'\n'` in `s` at or after `j`, or `s.len()` when there is none.
pub open spec fn line_end(s: Seq<char>, j: int) -> int
    decreases s.len() - j,
{
    if j >= s.len() {
        s.len() as int
    } else if s[j] == '\n' {
        j
    } else {
        line_end(s, j + 1)
    }
}

/// The line that starts at `start`: the characters up to the next `'\n'`,
/// without that `'\n'` and without a `'\r'` that stands directly before it.
pub open spec fn line_at(s: Seq<char>, start: int) -> Seq<char> {
    let e = line_end(s, start);
    if e < s.len() && e > start && s[e - 1] == '\r' {
        s.subrange(start, e - 1)
    } else {
        s.subrange(start, e)
    }
}

pub proof fn lemma_line_end_bounds(s: Seq<char>, j: int)
    requires
        0 <= j,
    ensures
        j <= s.len() ==> j <= line_end(s, j) <= s.len(),
        j > s.len() ==> line_end(s, j) == s.len(),
        line_end(s, j) < s.len() ==> s[line_end(s, j)] == '\n',
        forall|k: int| j <= k < line_end(s, j) ==> s[k] != '\n',
    decreases s.len() - j,
{
    if j < s.len() && s[j] != '\n' {
        lemma_line_end_bounds(s, j + 1);
    }
}

/// The lines of `s` from position `start` on, split as `str::lines` splits:
/// at `"\n"` or `"\r\n"`, with no empty line after a final line ending.
pub open spec fn lines_from(s: Seq<char>, start: int) -> Seq<Seq<char>>
    decreases s.len() + 1 - start,
{
    if start < 0 || start >= s.len() {
        seq![]
    } else {
        proof {
            lemma_line_end_bounds(s, start);
        }
        seq![line_at(s, start)] + lines_from(s, line_end(s, start) + 1)
    }
}

/// The lines of `s`, as `str::lines` yields them.
pub open spec fn lines(s: Seq<char>) -> Seq<Seq<char>> {
    lines_from(s, 0)
}

/// Finds the line that starts at `start`: returns the end of its content and
/// the position of the `'\n'` that ends it (or `s.len()`).
pub fn line_bounds(s: &Vec<char>, start: usize) -> (r: (usize, usize))
    requires
        start < s@.len(),
    ensures
        r.1 == line_end(s@, start as int),
        start <= r.0 <= r.1 <= s@.len(),
        s@.subrange(start as int, r.0 as int) == line_at(s@, start as int),
{
    let mut j = start;
    while j < s.len() && s[j] != '\n'
        invariant
            start <= j <= s@.len(),
            line_end(s@, start as int) == line_end(s@, j as int),
        decreases s@.len() - j,
    {
        j = j + 1;
    }
    proof {
        lemma_line_end_bounds(s@, j as int);
    }
    if j < s.len() && j > start && s[j - 1] == '\r' {
        (j - 1, j)
    } else {
        (j, j)
    }
}

/// `s` without its leading `White_Space` characters (`str::trim_start`).
pub open spec fn trim_start(s: Seq<char>) -> Seq<char>
    decreases s.len(),
{
    if s.len() > 0 && is_white_space(s[0]) {
        trim_start(s.drop_first())
    } else {
        s
    }
}

/// `s` without its trailing `White_Space` characters (`str::trim_end`).
pub open spec fn trim_end(s: Seq<char>) -> Seq<char>
    decreases s.len(),
{
    if s.len() > 0 && is_white_space(s.last()) {
        trim_end(s.drop_last())
    } else {
        s
    }
}

/// `s` without leading and trailing `White_Space` characters (`str::trim`).
pub open spec fn trim(s: Seq<char>) -> Seq<char> {
    trim_end(trim_start(s))
}

/// Bounds of the part of `s[lo..hi]` that `trim_start` keeps.
pub fn trim_start_bound(s: &Vec<char>, lo: usize, hi: usize) -> (a: usize)
    requires
        lo <= hi <= s@.len(),
    ensures
        lo <= a <= hi,
        s@.subrange(a as int, hi as int) == trim_start(s@.subrange(lo as int, hi as int)),
{
    let mut a = lo;
    while a < hi && is_white_space_char(s[a])
        invariant
            lo <= a <= hi <= s@.len(),
            trim_start(s@.subrange(a as int, hi as int)) == trim_start(
                s@.subrange(lo as int, hi as int),
            ),
        decreases hi - a,
    {
        assert(s@.subrange(a as int, hi as int).drop_first() == s@.subrange(a + 1, hi as int));
        a = a + 1;
    }
    a
}

/// Bounds of the part of `s[lo..hi]` that `trim` keeps.
pub fn trim_bounds(s: &Vec<char>, lo: usize, hi: usize) -> (r: (usize, usize))
    requires
        lo <= hi <= s@.len(),
    ensures
        lo <= r.0 <= r.1 <= hi,
        s@.subrange(r.0 as int, r.1 as int) == trim(s@.subrange(lo as int, hi as int)),
{
    let a = trim_start_bound(s, lo, hi);
    let mut b = hi;
    while b > a && is_white_space_char(s[b - 1])
        invariant
            lo <= a <= b <= hi <= s@.len(),
            s@.subrange(a as int, hi as int) == trim_start(s@.subrange(lo as int, hi as int)),
            trim_end(s@.subrange(a as int, b as int)) == trim(s@.subrange(lo as int, hi as int)),
        decreases b - a,
    {
        assert(s@.subrange(a as int, b as int).drop_last() == s@.subrange(a as int, b - 1));
        b = b - 1;
    }
    (a, b)
}

/// Whether `c` is one of the ASCII digits `'0'..='9'`.
pub open spec fn is_ascii_digit(c: char) -> bool {
    '0' <= c <= '9'
}

pub open spec fn all_digits(s: Seq<char>) -> bool {
    forall|i: int| 0 <= i < s.len() ==> is_ascii_digit(#[trigger] s[i])
}

/// The value of a string of decimal digits, most significant first.
pub open spec fn digits_value(s: Seq<char>) -> int
    decreases s.len(),
{
    if s.len() == 0 {
        0
    } else {
        digits_value(s.drop_last()) * 10 + (s.last() as int - '0' as int)
    }
}

/// What `s.parse::<i64>()` gives, as `Option`: an optional `'+'` or `'-'`
/// followed by at least one ASCII digit, whose value fits in an `i64`.
pub open spec fn parse_i64(s: Seq<char>) -> Option<i64> {
    let neg = s.len() > 0 && s[0] == '-';
    let ds = if s.len() > 0 && (s[0] == '-' || s[0] == '+') {
        s.drop_first()
    } else {
        s
    };
    if ds.len() == 0 || !all_digits(ds) {
        None
    } else {
        let v = if neg {
            -digits_value(ds)
        } else {
            digits_value(ds)
        };
        if i64::MIN <= v <= i64::MAX {
            Some(v as i64)
        } else {
            None
        }
    }
}

pub proof fn lemma_digits_value_nonneg(s: Seq<char>)
    requires
        all_digits(s),
    ensures
        digits_value(s) >= 0,
    decreases s.len(),
{
    if s.len() > 0 {
        assert(is_ascii_digit(s[s.len() - 1]));
        lemma_digits_value_nonneg(s.drop_last());
    }
}

/// The value of a prefix of a digit string is at most the value of the whole.
pub proof fn lemma_digits_value_prefix(s: Seq<char>, k: int)
    requires
        all_digits(s),
        0 <= k <= s.len(),
    ensures
        digits_value(s.subrange(0, k)) <= digits_value(s),
    decreases s.len(),
{
    if k < s.len() {
        assert(s.drop_last().subrange(0, k) == s.subrange(0, k));
        lemma_digits_value_prefix(s.drop_last(), k);
        lemma_digits_value_nonneg(s.drop_last());
        assert(is_ascii_digit(s[s.len() - 1]));
    } else {
        assert(s.subrange(0, k) == s);
    }
}

/// Parses `s[lo..hi]` as `str::parse::<i64>` does.
pub fn parse_i64_at(s: &Vec<char>, lo: usize, hi: usize) -> (r: Option<i64>)
    requires
        lo <= hi <= s@.len(),
    ensures
        r == parse_i64(s@.subrange(lo as int, hi as int)),
{
    let ghost t = s@.subrange(lo as int, hi as int);
    if lo == hi {
        return None;
    }
    let neg = s[lo] == '-';
    let start = if s[lo] == '-' || s[lo] == '+' {
        lo + 1
    } else {
        lo
    };
    let ghost ds = s@.subrange(start as int, hi as int);
    assert(ds == (if t.len() > 0 && (t[0] == '-' || t[0] == '+') {
        t.drop_first()
    } else {
        t
    }));
    if start == hi {
        return None;
    }
    let limit: u64 = if neg {
        9223372036854775808
    } else {
        9223372036854775807
    };
    let mut acc: u64 = 0;
    let mut i = start;
    assert(s@.subrange(start as int, start as int) == Seq::<char>::empty());
    #[verifier::loop_isolation(false)]
    while i < hi
        invariant
            lo <= start <= i <= hi <= s@.len(),
            ds == s@.subrange(start as int, hi as int),
            acc as int == digits_value(s@.subrange(start as int, i as int)),
            acc <= limit,
            limit == (if neg {
                9223372036854775808u64
            } else {
                9223372036854775807u64
            }),
            all_digits(s@.subrange(start as int, i as int)),
        decreases hi - i,
    {
        let c = s[i];
        if !('0' <= c && c <= '9') {
            assert(ds[i - start] == c);
            return None;
        }
        let d: u64 = (c as u32 - '0' as u32) as u64;
        let ghost next = s@.subrange(start as int, i + 1);
        assert(next.drop_last() == s@.subrange(start as int, i as int));
        assert(all_digits(next)) by {
            assert forall|k: int| 0 <= k < next.len() implies is_ascii_digit(#[trigger] next[k]) by {
                if k < next.len() - 1 {
                    assert(next[k] == s@.subrange(start as int, i as int)[k]);
                }
            }
        }
        assert(digits_value(next) == acc * 10 + d);
        if acc > (limit - d) / 10 {
            assert(acc * 10 + d > limit) by (nonlinear_arith)
                requires
                    acc > (limit - d) / 10,
                    d <= limit,
            ;
            proof {
                if all_digits(ds) {
                    assert(ds.subrange(0, i + 1 - start) == next);
                    lemma_digits_value_prefix(ds, i + 1 - start);
                }
            }
            return None;
        }
        assert(acc * 10 + d <= limit) by (nonlinear_arith)
            requires
                acc <= (limit - d) / 10,
                d <= limit,
        ;
        acc = acc * 10 + d;
        i = i + 1;
    }
    assert(s@.subrange(start as int, i as int) == ds);
    if neg {
        if acc == 9223372036854775808 {
            Some(i64::MIN)
        } else {
            Some(-(acc as i64))
        }
    } else {
        Some(acc as i64)
    }
}

/// The character sequences of a run of strings.
pub open spec fn views(v: Seq<String>) -> Seq<Seq<char>> {
    v.map_values(|s: String| s@)
}

/// Appends a copy of `s` to `v`.
pub fn push_str(v: &mut Vec<String>, s: &str)
    ensures
        views(final(v)@) == views(old(v)@).push(s@),
{
    let t = String::from_str(s);
    v.push(t);
    assert(views(v@) =~= views(old(v)@).push(s@));
}

/// Calls `String::from_iter` on the characters of `cs`. Claimed: the string
/// holds exactly those characters, in order.
#[verifier::external_body]
pub(crate) fn string_from_chars(cs: &[char]) -> (r: String)
    ensures
        r@ == cs@,
{
    String::from_iter(cs)
}

/// Whether `s[lo..hi]` equals `t`.
pub fn range_equals(s: &Vec<char>, lo: usize, hi: usize, t: &Vec<char>) -> (r: bool)
    requires
        lo <= hi <= s@.len(),
    ensures
        r == (s@.subrange(lo as int, hi as int) == t@),
{
    if hi - lo != t.len() {
        return false;
    }
    let mut i: usize = 0;
    while i < t.len()
        invariant
            hi - lo == t@.len(),
            lo <= hi <= s@.len(),
            i <= t@.len(),
            forall|k: int| 0 <= k < i ==> s@[lo + k] == t@[k],
        decreases t@.len() - i,
    {
        if s[lo + i] != t[i] {
            assert(s@.subrange(lo as int, hi as int)[i as int] != t@[i as int]);
            return false;
        }
        i = i + 1;
    }
    assert(s@.subrange(lo as int, hi as int) =~= t@);
    true
}

/// Index of the first `c` in `s` at or after `j`, or `s.len()` when there is none.
pub open spec fn find_char(s: Seq<char>, c: char, j: int) -> int
    decreases s.len() - j,
{
    if j >= s.len() {
        s.len() as int
    } else if s[j] == c {
        j
    } else {
        find_char(s, c, j + 1)
    }
}

pub proof fn lemma_find_char_bounds(s: Seq<char>, c: char, j: int)
    requires
        0 <= j,
    ensures
        j <= s.len() ==> j <= find_char(s, c, j) <= s.len(),
        j > s.len() ==> find_char(s, c, j) == s.len(),
        find_char(s, c, j) < s.len() ==> s[find_char(s, c, j)] == c,
        forall|k: int| j <= k < find_char(s, c, j) ==> s[k] != c,
    decreases s.len() - j,
{
    if j < s.len() && s[j] != c {
        lemma_find_char_bounds(s, c, j + 1);
    }
}

/// The first `c` in `s` at or after `j`, or `s.len()`.
pub fn find_char_from(s: &Vec<char>, c: char, j: usize) -> (r: usize)
    requires
        j <= s@.len(),
    ensures
        r == find_char(s@, c, j as int),
{
    let mut k = j;
    while k < s.len() && s[k] != c
        invariant
            j <= k <= s@.len(),
            find_char(s@, c, j as int) == find_char(s@, c, k as int),
        decreases s@.len() - k,
    {
        k = k + 1;
    }
    k
}

/// A copy of `s[lo..hi]`.
pub fn copy_range(s: &Vec<char>, lo: usize, hi: usize) -> (r: Vec<char>)
    requires
        lo <= hi <= s@.len(),
    ensures
        r@ == s@.subrange(lo as int, hi as int),
{
    let mut r: Vec<char> = Vec::new();
    let mut i = lo;
    while i < hi
        invariant
            lo <= i <= hi <= s@.len(),
            r@ == s@.subrange(lo as int, i as int),
        decreases hi - i,
    {
        r.push(s[i]);
        assert(s@.subrange(lo as int, i + 1) == s@.subrange(lo as int, i as int).push(s@[i as int]));
        i = i + 1;
    }
    r
}

/// The ASCII digit of `d` (`0 <= d < 10`).
pub open spec fn digit_char(d: nat) -> char {
    (('0' as u32) + (d as u32)) as char
}

/// The decimal digits of `n`, without sign or leading zeros.
pub open spec fn decimal(n: nat) -> Seq<char>
    decreases n,
{
    if n < 10 {
        seq![digit_char(n)]
    } else {
        decimal(n / 10).push(digit_char(n % 10))
    }
}

/// The decimal digits of `n` are digits, at least one, and their value is `n`.
pub proof fn lemma_decimal_value(n: nat)
    ensures
        decimal(n).len() > 0,
        all_digits(decimal(n)),
        digits_value(decimal(n)) == n,
    decreases n,
{
    if n >= 10 {
        lemma_decimal_value(n / 10);
        let d = decimal(n);
        assert(d.drop_last() == decimal(n / 10));
        assert(d.last() == digit_char(n % 10));
        assert(digit_char(n % 10) as int == '0' as int + n % 10);
        assert(digits_value(d) == digits_value(decimal(n / 10)) * 10 + n % 10);
        assert((n / 10) * 10 + n % 10 == n);
        assert forall|i: int| 0 <= i < d.len() implies is_ascii_digit(#[trigger] d[i]) by {
            if i < d.len() - 1 {
                assert(d[i] == decimal(n / 10)[i]);
            }
        }
    } else {
        let d = decimal(n);
        assert(d.drop_last() == Seq::<char>::empty());
        assert(digit_char(n) as int == '0' as int + n);
        assert(digits_value(Seq::<char>::empty()) == 0);
        assert(d.last() == digit_char(n));
        assert(digits_value(d) == n);
    }
}

/// A sequence with no white space at its ends is its own trim.
pub proof fn lemma_trim_unchanged(s: Seq<char>)
    requires
        s.len() > 0,
        !is_white_space(s[0]),
        !is_white_space(s.last()),
    ensures
        trim(s) == s,
{
}

/// `line_end` read in `p + q` from inside `q`.
pub proof fn lemma_line_end_shift(p: Seq<char>, q: Seq<char>, j: int)
    requires
        0 <= j,
    ensures
        line_end(p + q, p.len() + j) == p.len() + line_end(q, j),
    decreases q.len() - j,
{
    if j < q.len() {
        assert((p + q)[p.len() + j] == q[j]);
        if q[j] != '\n' {
            lemma_line_end_shift(p, q, j + 1);
        }
    }
}

/// The lines of `p + q` from inside `q` are the lines of `q`.
pub proof fn lemma_lines_from_shift(p: Seq<char>, q: Seq<char>, j: int)
    requires
        0 <= j,
    ensures
        lines_from(p + q, p.len() + j) == lines_from(q, j),
    decreases q.len() + 1 - j,
{
    if j < q.len() {
        lemma_line_end_shift(p, q, j);
        lemma_line_end_bounds(q, j);
        let e = line_end(q, j);
        lemma_lines_from_shift(p, q, e + 1);
        assert(line_at(p + q, p.len() + j) == line_at(q, j)) by {
            if e < q.len() && e > j {
                assert((p + q)[p.len() + e - 1] == q[e - 1]);
            }
            assert((p + q).subrange(p.len() + j, p.len() + e) == q.subrange(j, e));
            if e > j {
                assert((p + q).subrange(p.len() + j, p.len() + e - 1) == q.subrange(j, e - 1));
            }
        }
    }
}

/// A line without `'\n'` and not ending in `'\r'`, followed by `'\n'` and
/// more text, is the first line, and the lines of the rest follow it.
pub proof fn lemma_lines_of_line_then_rest(line: Seq<char>, rest: Seq<char>)
    requires
        forall|i: int| 0 <= i < line.len() ==> line[i] != '\n',
        line.len() > 0 ==> line.last() != '\r',
    ensures
        lines(line + seq!['\n'] + rest) == seq![line] + lines(rest),
{
    let s = line + seq!['\n'] + rest;
    let head = line + seq!['\n'];
    assert(s == head + rest);
    assert forall|k: int| 0 <= k < line.len() implies s[k] != '\n' by {
        assert(s[k] == line[k]);
    }
    assert(s[line.len() as int] == '\n');
    lemma_line_end_at(s, 0, line.len() as int);
    assert(line_at(s, 0) == line) by {
        if line.len() > 0 {
            assert(s[line.len() - 1] == line.last());
        }
        assert(s.subrange(0, line.len() as int) == line);
    }
    lemma_lines_from_shift(head, rest, 0);
    assert(lines_from(s, 0) == seq![line_at(s, 0)] + lines_from(s, line.len() + 1int));
}

/// `line_end` at a known first `'\n'`.
pub proof fn lemma_line_end_at(s: Seq<char>, j: int, e: int)
    requires
        0 <= j <= e < s.len(),
        s[e] == '\n',
        forall|k: int| j <= k < e ==> s[k] != '\n',
    ensures
        line_end(s, j) == e,
    decreases e - j,
{
    if j < e {
        lemma_line_end_at(s, j + 1, e);
    }
}

} // verus!
