//! Character-level text handling shared by the parsers of this crate.
//!
//! Every operation works on the characters of a string (`Seq<char>` in the
//! specifications, `&[char]` ranges in executable code).  The specifications
//! follow the documented behaviour of the corresponding `str` methods of the
//! standard library (`trim`, `find`, `split_whitespace`, `lines`, `split`,
//! `parse` for unsigned integers, `replace`).
use vstd::prelude::*;

verus! {

// ---------------------------------------------------------------------------
// Whitespace
// ---------------------------------------------------------------------------

/// The Unicode `White_Space` property, as used by `char::is_whitespace`.
pub open spec fn is_ws(c: char) -> bool {
    let u = c as u32;
    ||| 9 <= u <= 13
    ||| u == 32
    ||| u == 0x85
    ||| u == 0xA0
    ||| u == 0x1680
    ||| 0x2000 <= u <= 0x200A
    ||| u == 0x2028
    ||| u == 0x2029
    ||| u == 0x202F
    ||| u == 0x205F
    ||| u == 0x3000
}

pub fn is_ws_char(c: char) -> (b: bool)
    ensures
        b == is_ws(c),
{
    let u = c as u32;
    (9 <= u && u <= 13) || u == 32 || u == 0x85 || u == 0xA0 || u == 0x1680 || (0x2000 <= u
        && u <= 0x200A) || u == 0x2028 || u == 0x2029 || u == 0x202F || u == 0x205F || u
        == 0x3000
}

/// `str::trim_start`: drops the leading whitespace.
pub open spec fn trim_start(s: Seq<char>) -> Seq<char>
    decreases s.len(),
{
    if s.len() > 0 && is_ws(s[0]) {
        trim_start(s.drop_first())
    } else {
        s
    }
}

/// `str::trim_end`: drops the trailing whitespace.
pub open spec fn trim_end(s: Seq<char>) -> Seq<char>
    decreases s.len(),
{
    if s.len() > 0 && is_ws(s.last()) {
        trim_end(s.drop_last())
    } else {
        s
    }
}

/// `str::trim`: drops the leading and the trailing whitespace.
pub open spec fn trim(s: Seq<char>) -> Seq<char> {
    trim_end(trim_start(s))
}

/// The characters of a string slice, collected into a vector.
pub fn chars_of(s: &str) -> (v: Vec<char>)
    ensures
        v@ == s@,
{
    let mut v: Vec<char> = Vec::new();
    for c in it: s.chars()
        invariant
            v@ == it.seq().take(it.index() as int),
            it.seq() == s@,
    {
        v.push(c);
    }
    v
}

/// `String::from_iter` over characters: the string made of the given characters.
#[verifier::external_body]
pub(crate) fn string_from_chars(v: &[char]) -> (s: String)
    ensures
        s@ == v@,
{
    v.iter().collect()
}

/// The string made of the characters `s[lo..hi]`.
pub fn string_of_range(s: &[char], lo: usize, hi: usize) -> (r: String)
    requires
        lo <= hi <= s@.len(),
    ensures
        r@ == s@.subrange(lo as int, hi as int),
{
    let mut v: Vec<char> = Vec::new();
    let mut i = lo;
    while i < hi
        invariant
            lo <= i <= hi <= s@.len(),
            v@ == s@.subrange(lo as int, i as int),
        decreases hi - i,
    {
        v.push(s[i]);
        i = i + 1;
        assert(v@ =~= s@.subrange(lo as int, i as int));
    }
    string_from_chars(v.as_slice())
}

/// Index of the first non-whitespace character of `s[lo..hi]` (or `hi`).
pub fn trim_start_at(s: &[char], lo: usize, hi: usize) -> (a: usize)
    requires
        lo <= hi <= s@.len(),
    ensures
        lo <= a <= hi,
        trim_start(s@.subrange(lo as int, hi as int)) == s@.subrange(a as int, hi as int),
{
    let mut a = lo;
    while a < hi && is_ws_char(s[a])
        invariant
            lo <= a <= hi <= s@.len(),
            trim_start(s@.subrange(lo as int, hi as int)) == trim_start(
                s@.subrange(a as int, hi as int),
            ),
        decreases hi - a,
    {
        assert(s@.subrange(a as int, hi as int).drop_first() =~= s@.subrange(
            a + 1,
            hi as int,
        ));
        a = a + 1;
    }
    a
}

/// Index just past the last non-whitespace character of `s[lo..hi]` (or `lo`).
pub fn trim_end_at(s: &[char], lo: usize, hi: usize) -> (b: usize)
    requires
        lo <= hi <= s@.len(),
    ensures
        lo <= b <= hi,
        trim_end(s@.subrange(lo as int, hi as int)) == s@.subrange(lo as int, b as int),
{
    let mut b = hi;
    while b > lo && is_ws_char(s[b - 1])
        invariant
            lo <= b <= hi <= s@.len(),
            trim_end(s@.subrange(lo as int, hi as int)) == trim_end(
                s@.subrange(lo as int, b as int),
            ),
        decreases b - lo,
    {
        assert(s@.subrange(lo as int, b as int).drop_last() =~= s@.subrange(
            lo as int,
            b - 1,
        ));
        b = b - 1;
    }
    b
}

/// The range of `trim(s[lo..hi])` inside `s`.
pub fn trim_range(s: &[char], lo: usize, hi: usize) -> (r: (usize, usize))
    requires
        lo <= hi <= s@.len(),
    ensures
        lo <= r.0 <= r.1 <= hi,
        trim(s@.subrange(lo as int, hi as int)) == s@.subrange(r.0 as int, r.1 as int),
{
    let a = trim_start_at(s, lo, hi);
    let b = trim_end_at(s, a, hi);
    (a, b)
}

// ---------------------------------------------------------------------------
// Substring search
// ---------------------------------------------------------------------------

/// `pat` occurs in `s` at position `i`.
pub open spec fn matches_at(s: Seq<char>, pat: Seq<char>, i: int) -> bool {
    0 <= i && i + pat.len() <= s.len() && s.subrange(i, i + pat.len()) == pat
}

/// `i` is the first position at which `pat` occurs in `s`.
pub open spec fn first_match(s: Seq<char>, pat: Seq<char>, i: int) -> bool {
    &&& matches_at(s, pat, i)
    &&& forall|j: int| 0 <= j < i ==> !matches_at(s, pat, j)
}

/// `str::find` with a string pattern: the first position of `pat` in `s`.
pub open spec fn find(s: Seq<char>, pat: Seq<char>) -> Option<int> {
    if exists|i: int| first_match(s, pat, i) {
        Some(choose|i: int| first_match(s, pat, i))
    } else {
        None
    }
}

pub proof fn lemma_find_first(s: Seq<char>, pat: Seq<char>, i: int)
    requires
        first_match(s, pat, i),
    ensures
        find(s, pat) == Some(i),
{
    let k = choose|k: int| first_match(s, pat, k);
    assert(first_match(s, pat, k));
    if k < i {
        assert(!matches_at(s, pat, k));
    }
    if i < k {
        assert(!matches_at(s, pat, i));
    }
}

pub proof fn lemma_find_none(s: Seq<char>, pat: Seq<char>)
    requires
        forall|j: int| !matches_at(s, pat, j),
    ensures
        find(s, pat) is None,
{
}

/// Whether `pat` occurs in `s[lo..hi]` at absolute position `i`.
pub fn occurs_at(s: &[char], hi: usize, pat: &[char], i: usize) -> (b: bool)
    requires
        hi <= s@.len(),
        i <= hi,
    ensures
        b == (i + pat@.len() <= hi && s@.subrange(i as int, i + pat@.len()) == pat@),
{
    if pat.len() > hi - i {
        return false;
    }
    let mut k: usize = 0;
    while k < pat.len()
        invariant
            i + pat@.len() <= hi <= s@.len(),
            k <= pat@.len(),
            forall|m: int| 0 <= m < k ==> s@[i + m] == pat@[m],
        decreases pat@.len() - k,
    {
        if s[i + k] != pat[k] {
            assert(s@.subrange(i as int, i + pat@.len())[k as int] != pat@[k as int]);
            return false;
        }
        k = k + 1;
    }
    assert(s@.subrange(i as int, i + pat@.len()) =~= pat@);
    true
}

/// `find(s[lo..hi], pat)`, given as an absolute position in `s`.
pub fn find_in(s: &[char], lo: usize, hi: usize, pat: &[char]) -> (r: Option<usize>)
    requires
        lo <= hi <= s@.len(),
    ensures
        match r {
            Some(k) => lo <= k && k + pat@.len() <= hi && find(
                s@.subrange(lo as int, hi as int),
                pat@,
            ) == Some(k - lo),
            None => find(s@.subrange(lo as int, hi as int), pat@) is None,
        },
{
    let ghost sub = s@.subrange(lo as int, hi as int);
    let mut i = lo;
    loop
        invariant
            lo <= i <= hi,
            hi <= s@.len(),
            sub == s@.subrange(lo as int, hi as int),
            forall|j: int| 0 <= j < i - lo ==> !matches_at(sub, pat@, j),
        ensures
            forall|j: int| !matches_at(sub, pat@, j),
        decreases hi - i,
    {
        let found = occurs_at(s, hi, pat, i);
        assert(found ==> sub.subrange(i - lo, i - lo + pat@.len()) =~= s@.subrange(
            i as int,
            i + pat@.len(),
        ));
        if found {
            assert(matches_at(sub, pat@, i - lo));
            proof {
                lemma_find_first(sub, pat@, i - lo);
            }
            return Some(i);
        }
        assert(!matches_at(sub, pat@, i - lo)) by {
            if i + pat@.len() <= hi {
                assert(sub.subrange(i - lo, i - lo + pat@.len()) =~= s@.subrange(
                    i as int,
                    i + pat@.len(),
                ));
            }
        }
        if i == hi {
            assert forall|j: int| !matches_at(sub, pat@, j) by {
                if 0 <= j && j + pat@.len() <= sub.len() {
                    assert(j <= i - lo);
                }
            }
            break;
        }
        i = i + 1;
    }
    proof {
        lemma_find_none(sub, pat@);
    }
    None
}

// ---------------------------------------------------------------------------
// Splitting
// ---------------------------------------------------------------------------

/// The pieces of `s` named by a list of `[start, end)` ranges.
pub open spec fn spans(s: Seq<char>, r: Seq<(usize, usize)>) -> Seq<Seq<char>> {
    r.map_values(|p: (usize, usize)| s.subrange(p.0 as int, p.1 as int))
}

/// All ranges lie inside `[lo, hi)`.
pub open spec fn spans_within(r: Seq<(usize, usize)>, lo: int, hi: int) -> bool {
    forall|k: int| 0 <= k < r.len() ==> lo <= #[trigger] r[k].0 <= r[k].1 <= hi
}

/// Spans within a range are within any range around it.
pub proof fn lemma_spans_widen(r: Seq<(usize, usize)>, lo: int, hi: int, lo2: int, hi2: int)
    requires
        spans_within(r, lo, hi),
        lo2 <= lo,
        hi <= hi2,
    ensures
        spans_within(r, lo2, hi2),
{
}

/// `str::split_whitespace`: the maximal runs of non-whitespace characters.
pub open spec fn tokens(s: Seq<char>) -> Seq<Seq<char>>
    decreases s.len(),
{
    if s.len() == 0 {
        Seq::empty()
    } else {
        let p = s.drop_last();
        let c = s.last();
        let t = tokens(p);
        if is_ws(c) {
            t
        } else if p.len() > 0 && !is_ws(p.last()) {
            t.update(t.len() - 1, t.last().push(c))
        } else {
            t.push(seq![c])
        }
    }
}

/// The whitespace-separated tokens of `s[lo..hi]`, as ranges of `s`.
pub fn tokens_in(s: &[char], lo: usize, hi: usize) -> (r: Vec<(usize, usize)>)
    requires
        lo <= hi <= s@.len(),
    ensures
        spans(s@, r@) == tokens(s@.subrange(lo as int, hi as int)),
        spans_within(r@, lo as int, hi as int),
{
    let mut r: Vec<(usize, usize)> = Vec::new();
    let mut i = lo;
    while i < hi
        invariant
            lo <= i <= hi <= s@.len(),
            spans(s@, r@) == tokens(s@.subrange(lo as int, i as int)),
            spans_within(r@, lo as int, i as int),
            (i > lo && !is_ws(s@[i - 1])) ==> (r@.len() > 0 && r@.last().1 == i),
        decreases hi - i,
    {
        let c = s[i];
        let ghost prev = s@.subrange(lo as int, i as int);
        assert(s@.subrange(lo as int, i + 1).drop_last() =~= prev);
        assert(s@.subrange(lo as int, i + 1).last() == c);
        assert(i > lo ==> prev.last() == s@[i - 1]);
        if is_ws_char(c) {
        } else if i > lo && !is_ws_char(s[i - 1]) {
            let last = r.len() - 1;
            let (a, _) = r[last];
            r.set(last, (a, i + 1));
            assert(spans(s@, r@) =~= tokens(prev).update(
                tokens(prev).len() - 1,
                tokens(prev).last().push(c),
            )) by {
                assert(s@.subrange(a as int, i + 1) =~= s@.subrange(a as int, i as int).push(c));
            }
        } else {
            r.push((i, i + 1));
            assert(spans(s@, r@) =~= tokens(prev).push(seq![c])) by {
                assert(s@.subrange(i as int, i + 1) =~= seq![c]);
            }
        }
        i = i + 1;
    }
    r
}

/// `str::split` on a character: the pieces between the separators, always at
/// least one.
pub open spec fn split_char(s: Seq<char>, d: char) -> Seq<Seq<char>>
    decreases s.len(),
{
    if s.len() == 0 {
        seq![Seq::empty()]
    } else {
        let t = split_char(s.drop_last(), d);
        if s.last() == d {
            t.push(Seq::empty())
        } else {
            t.update(t.len() - 1, t.last().push(s.last()))
        }
    }
}

pub proof fn lemma_split_char_nonempty(s: Seq<char>, d: char)
    ensures
        split_char(s, d).len() >= 1,
    decreases s.len(),
{
    if s.len() > 0 {
        lemma_split_char_nonempty(s.drop_last(), d);
    }
}

/// The pieces of `s[lo..hi]` between occurrences of `d`, as ranges of `s`.
pub fn split_char_in(s: &[char], lo: usize, hi: usize, d: char) -> (r: Vec<(usize, usize)>)
    requires
        lo <= hi <= s@.len(),
    ensures
        spans(s@, r@) == split_char(s@.subrange(lo as int, hi as int), d),
        spans_within(r@, lo as int, hi as int),
        r@.len() >= 1,
{
    let mut r: Vec<(usize, usize)> = Vec::new();
    r.push((lo, lo));
    assert(spans(s@, r@) =~= split_char(s@.subrange(lo as int, lo as int), d)) by {
        assert(s@.subrange(lo as int, lo as int) =~= Seq::<char>::empty());
    }
    let mut i = lo;
    while i < hi
        invariant
            lo <= i <= hi <= s@.len(),
            spans(s@, r@) == split_char(s@.subrange(lo as int, i as int), d),
            spans_within(r@, lo as int, i as int),
            r@.len() >= 1,
            r@.last().1 == i,
        decreases hi - i,
    {
        let c = s[i];
        let ghost prev = s@.subrange(lo as int, i as int);
        assert(s@.subrange(lo as int, i + 1).drop_last() =~= prev);
        assert(s@.subrange(lo as int, i + 1).last() == c);
        let ghost old_r = r@;
        if c == d {
            r.push((i + 1, i + 1));
            assert(spans(s@, r@) =~= split_char(prev, d).push(Seq::empty())) by {
                assert(s@.subrange(i + 1, i + 1) =~= Seq::<char>::empty());
            }
        } else {
            let last = r.len() - 1;
            let (a, _) = r[last];
            r.set(last, (a, i + 1));
            assert(spans(s@, r@) =~= split_char(prev, d).update(
                split_char(prev, d).len() - 1,
                split_char(prev, d).last().push(c),
            )) by {
                assert(s@.subrange(a as int, i + 1) =~= s@.subrange(a as int, i as int).push(c));
            }
        }
        assert forall|k: int| 0 <= k < r@.len() implies lo <= #[trigger] r@[k].0 <= r@[k].1 <= i
            + 1 by {
            if k < old_r.len() - 1 {
                assert(r@[k] == old_r[k]);
            } else if k == old_r.len() - 1 {
                assert(lo <= old_r[k].0 <= old_r[k].1);
            }
        }
        i = i + 1;
    }
    r
}

/// Drops one trailing carriage return.
pub open spec fn strip_cr(x: Seq<char>) -> Seq<char> {
    if x.len() > 0 && x.last() == '\r' {
        x.drop_last()
    } else {
        x
    }
}

/// `str::lines`: pieces separated by `\n` or `\r\n`; a final line ending is
/// optional, and a `\r` not followed by `\n` stays in the line.
pub open spec fn lines(s: Seq<char>) -> Seq<Seq<char>> {
    if s.len() == 0 {
        Seq::empty()
    } else {
        let parts = split_char(s, '\n');
        let ended = parts.drop_last().map_values(|x: Seq<char>| strip_cr(x));
        if s.last() == '\n' {
            ended
        } else {
            ended.push(parts.last())
        }
    }
}

/// The lines of `s[lo..hi]`, as ranges of `s`.
pub fn lines_in(s: &[char], lo: usize, hi: usize) -> (r: Vec<(usize, usize)>)
    requires
        lo <= hi <= s@.len(),
    ensures
        spans(s@, r@) == lines(s@.subrange(lo as int, hi as int)),
        spans_within(r@, lo as int, hi as int),
{
    let ghost sub = s@.subrange(lo as int, hi as int);
    let parts = split_char_in(s, lo, hi, '\n');
    let mut r: Vec<(usize, usize)> = Vec::new();
    if hi == lo {
        return r;
    }
    let n = parts.len();
    let mut k: usize = 0;
    while k + 1 < n
        invariant
            n == parts@.len(),
            n >= 1,
            k + 1 <= n,
            lo <= hi <= s@.len(),
            spans(s@, parts@) == split_char(sub, '\n'),
            spans_within(parts@, lo as int, hi as int),
            spans_within(r@, lo as int, hi as int),
            r@.len() == k,
            forall|m: int| 0 <= m < k ==> s@.subrange(#[trigger] r@[m].0 as int, r@[m].1 as int)
                == strip_cr(s@.subrange(parts@[m].0 as int, parts@[m].1 as int)),
        decreases n - k,
    {
        let (a, b) = parts[k];
        assert(lo <= parts@[k as int].0 <= parts@[k as int].1 <= hi);
        if b > a && s[b - 1] == '\r' {
            r.push((a, b - 1));
            assert(s@.subrange(a as int, b - 1) =~= strip_cr(s@.subrange(a as int, b as int)));
        } else {
            r.push((a, b));
        }
        k = k + 1;
    }
    let ghost parts_v = split_char(sub, '\n');
    assert(spans(s@, r@) =~= parts_v.drop_last().map_values(|x: Seq<char>| strip_cr(x))) by {
        assert forall|m: int| 0 <= m < r@.len() implies spans(s@, r@)[m] == parts_v.drop_last().map_values(|x: Seq<char>| strip_cr(x))[m] by {
            assert(parts_v[m] == s@.subrange(parts@[m].0 as int, parts@[m].1 as int));
        }
    }
    assert(sub.last() == s@[hi - 1]);
    if s[hi - 1] != '\n' {
        let (a, b) = parts[n - 1];
        assert(lo <= parts@[n - 1].0 <= parts@[n - 1].1 <= hi);
        r.push((a, b));
        assert(spans(s@, r@) =~= parts_v.drop_last().map_values(|x: Seq<char>| strip_cr(x)).push(parts_v.last()));
    }
    r
}

/// `s` starts with `p`.
pub open spec fn starts_with(s: Seq<char>, p: Seq<char>) -> bool {
    p.len() <= s.len() && s.take(p.len() as int) == p
}

/// Whether `s[lo..hi]` starts with `p`.
pub fn starts_with_in(s: &[char], lo: usize, hi: usize, p: &[char]) -> (b: bool)
    requires
        lo <= hi <= s@.len(),
    ensures
        b == starts_with(s@.subrange(lo as int, hi as int), p@),
{
    let b = occurs_at(s, hi, p, lo);
    assert(b ==> s@.subrange(lo as int, hi as int).take(p@.len() as int) =~= s@.subrange(
        lo as int,
        lo + p@.len(),
    ));
    assert(p@.len() <= hi - lo ==> s@.subrange(lo as int, hi as int).take(p@.len() as int)
        =~= s@.subrange(lo as int, lo + p@.len()));
    b
}

/// Whether the two ranges hold the same characters.
pub fn range_eq(s: &[char], lo: usize, hi: usize, p: &[char]) -> (b: bool)
    requires
        lo <= hi <= s@.len(),
    ensures
        b == (s@.subrange(lo as int, hi as int) == p@),
{
    if hi - lo != p.len() {
        assert(s@.subrange(lo as int, hi as int).len() != p@.len());
        return false;
    }
    occurs_at(s, hi, p, lo)
}

// ---------------------------------------------------------------------------
// Unsigned decimal numbers
// ---------------------------------------------------------------------------

pub open spec fn is_digit(c: char) -> bool {
    '0' <= c && c <= '9'
}

pub open spec fn all_digits(d: Seq<char>) -> bool {
    forall|i: int| 0 <= i < d.len() ==> is_digit(#[trigger] d[i])
}

pub open spec fn digit_value(c: char) -> nat {
    (c as int - '0' as int) as nat
}

/// The number written by the decimal digits `d`.
pub open spec fn digits_value(d: Seq<char>) -> nat
    decreases d.len(),
{
    if d.len() == 0 {
        0
    } else {
        digits_value(d.drop_last()) * 10 + digit_value(d.last())
    }
}

/// The digits that an unsigned `str::parse` reads: one leading `+` is allowed.
pub open spec fn unsigned_digits(s: Seq<char>) -> Seq<char> {
    if s.len() > 0 && s[0] == '+' {
        s.drop_first()
    } else {
        s
    }
}

/// `str::parse` for an unsigned integer type whose largest value is `max`.
pub open spec fn parse_unsigned(s: Seq<char>, max: nat) -> Option<nat> {
    let d = unsigned_digits(s);
    if d.len() > 0 && all_digits(d) && digits_value(d) <= max {
        Some(digits_value(d))
    } else {
        None
    }
}

pub proof fn lemma_digits_value_prefix(d: Seq<char>, k: int)
    requires
        0 <= k <= d.len(),
    ensures
        digits_value(d.take(k)) <= digits_value(d),
    decreases d.len(),
{
    if k < d.len() {
        lemma_digits_value_prefix(d.drop_last(), k);
        assert(d.drop_last().take(k) =~= d.take(k));
    } else {
        assert(d.take(k) =~= d);
    }
}

/// `parse_unsigned(s[lo..hi], max)`.
pub fn parse_unsigned_in(s: &[char], lo: usize, hi: usize, max: u64) -> (r: Option<u64>)
    requires
        lo <= hi <= s@.len(),
    ensures
        match parse_unsigned(s@.subrange(lo as int, hi as int), max as nat) {
            Some(v) => r == Some(v as u64),
            None => r is None,
        },
{
    let ghost sub = s@.subrange(lo as int, hi as int);
    let mut start = lo;
    if lo < hi && s[lo] == '+' {
        start = lo + 1;
    }
    let ghost d = unsigned_digits(sub);
    assert(d =~= s@.subrange(start as int, hi as int));
    if start == hi {
        return None;
    }
    let mut v: u64 = 0;
    let mut i = start;
    while i < hi
        invariant
            start <= i <= hi <= s@.len(),
            start < hi,
            sub == s@.subrange(lo as int, hi as int),
            d == unsigned_digits(sub),
            d == s@.subrange(start as int, hi as int),
            all_digits(d.take(i - start)),
            v as nat == digits_value(d.take(i - start)),
            v <= max,
        decreases hi - i,
    {
        let c = s[i];
        assert(d.take(i + 1 - start).drop_last() =~= d.take(i - start));
        assert(d.take(i + 1 - start).last() == c);
        if !('0' <= c && c <= '9') {
            assert(!all_digits(d)) by {
                assert(d[i - start] == c);
            }
            return None;
        }
        let dv = (c as u32 - '0' as u32) as u64;
        assert(dv == digit_value(c));
        let nv: u128 = (v as u128) * 10 + (dv as u128);
        assert(nv as nat == digits_value(d.take(i + 1 - start)));
        if nv > max as u128 {
            proof {
                lemma_digits_value_prefix(d, i + 1 - start);
            }
            return None;
        }
        v = nv as u64;
        i = i + 1;
    }
    assert(d.take(hi - start) =~= d);
    Some(v)
}

/// A decimal digit character.
pub open spec fn digit_char(n: nat) -> char {
    (('0' as nat) + n) as char
}

/// The decimal representation of `n`, without leading zeros.
pub open spec fn decimal(n: nat) -> Seq<char>
    decreases n,
{
    if n < 10 {
        seq![digit_char(n)]
    } else {
        decimal(n / 10).push(digit_char(n % 10))
    }
}

/// The octal representation of `n`, without leading zeros (`format!("{:o}")`).
pub open spec fn octal(n: nat) -> Seq<char>
    decreases n,
{
    if n < 8 {
        seq![digit_char(n)]
    } else {
        octal(n / 8).push(digit_char(n % 8))
    }
}

fn digit_of(n: u64) -> (c: char)
    requires
        n < 10,
    ensures
        c == digit_char(n as nat),
{
    let b: u8 = 48u8 + (n as u8);
    b as char
}

/// Appends the decimal representation of `n`.
pub fn push_decimal(out: &mut Vec<char>, n: u64)
    ensures
        final(out)@ == old(out)@ + decimal(n as nat),
    decreases n,
{
    if n >= 10 {
        push_decimal(out, n / 10);
    }
    out.push(digit_of(n % 10));
    assert(n < 10 ==> n % 10 == n);
}

/// Appends the octal representation of `n`.
pub fn push_octal(out: &mut Vec<char>, n: u64)
    ensures
        final(out)@ == old(out)@ + octal(n as nat),
    decreases n,
{
    if n >= 8 {
        push_octal(out, n / 8);
    }
    out.push(digit_of(n % 8));
    assert(n < 8 ==> n % 8 == n);
}

// ---------------------------------------------------------------------------
// Replacement and case
// ---------------------------------------------------------------------------

/// `str::replace` with a non-empty pattern: every non-overlapping occurrence
/// of `pat`, scanned from the left, becomes `rep`.
pub open spec fn replace_all(s: Seq<char>, pat: Seq<char>, rep: Seq<char>) -> Seq<char>
    decreases s.len(),
{
    if pat.len() == 0 || s.len() == 0 {
        s
    } else if starts_with(s, pat) {
        rep + replace_all(s.skip(pat.len() as int), pat, rep)
    } else {
        seq![s[0]] + replace_all(s.drop_first(), pat, rep)
    }
}

/// `s.replace(pat, rep)`, with the characters of `s`, `pat` and `rep`.
pub fn replace_chars(s: &[char], pat: &[char], rep: &[char]) -> (r: Vec<char>)
    requires
        pat@.len() > 0,
    ensures
        r@ == replace_all(s@, pat@, rep@),
{
    let mut out: Vec<char> = Vec::new();
    let mut i: usize = 0;
    assert(s@.skip(0) =~= s@);
    while i < s.len()
        invariant
            i <= s@.len(),
            pat@.len() > 0,
            out@ + replace_all(s@.skip(i as int), pat@, rep@) == replace_all(s@, pat@, rep@),
        decreases s@.len() - i,
    {
        let ghost rest = s@.skip(i as int);
        let hit = starts_with_in(s, i, s.len(), pat);
        assert(s@.subrange(i as int, s@.len() as int) =~= rest);
        if hit {
            let mut k: usize = 0;
            let ghost before = out@;
            while k < rep.len()
                invariant
                    k <= rep@.len(),
                    out@ == before + rep@.take(k as int),
                decreases rep@.len() - k,
            {
                out.push(rep[k]);
                k = k + 1;
                assert(out@ =~= before + rep@.take(k as int));
            }
            assert(rep@.take(rep@.len() as int) =~= rep@);
            assert(rest.skip(pat@.len() as int) =~= s@.skip(i + pat@.len()));
            assert(out@ + replace_all(s@.skip(i + pat@.len()), pat@, rep@) =~= before + (rep@
                + replace_all(rest.skip(pat@.len() as int), pat@, rep@)));
            i = i + pat.len();
        } else {
            let ghost before = out@;
            out.push(s[i]);
            assert(rest.drop_first() =~= s@.skip(i + 1));
            assert(out@ + replace_all(s@.skip(i + 1), pat@, rep@) =~= before + (seq![rest[0]]
                + replace_all(rest.drop_first(), pat@, rep@)));
            i = i + 1;
        }
    }
    assert(s@.skip(i as int) =~= Seq::<char>::empty());
    assert(out@ + Seq::<char>::empty() =~= out@);
    out
}

/// `char::to_ascii_lowercase`.
pub open spec fn ascii_lower(c: char) -> char {
    if 'A' <= c && c <= 'Z' {
        ((c as u32) + 32) as char
    } else {
        c
    }
}

/// `str::to_ascii_lowercase`.
pub open spec fn ascii_lowercase(s: Seq<char>) -> Seq<char> {
    s.map_values(|c: char| ascii_lower(c))
}

pub fn ascii_lower_char(c: char) -> (r: char)
    ensures
        r == ascii_lower(c),
{
    if 'A' <= c && c <= 'Z' {
        let b: u8 = (c as u8) + 32;
        b as char
    } else {
        c
    }
}

/// The lower-case ASCII form of `s[lo..hi]`.
pub fn ascii_lowercase_range(s: &[char], lo: usize, hi: usize) -> (r: Vec<char>)
    requires
        lo <= hi <= s@.len(),
    ensures
        r@ == ascii_lowercase(s@.subrange(lo as int, hi as int)),
{
    let mut r: Vec<char> = Vec::new();
    let mut i = lo;
    while i < hi
        invariant
            lo <= i <= hi <= s@.len(),
            r@ == ascii_lowercase(s@.subrange(lo as int, i as int)),
        decreases hi - i,
    {
        r.push(ascii_lower_char(s[i]));
        i = i + 1;
        assert(r@ =~= ascii_lowercase(s@.subrange(lo as int, i as int)));
    }
    r
}

// ---------------------------------------------------------------------------
// Joining and collecting
// ---------------------------------------------------------------------------

/// The texts of a list of strings.
pub open spec fn strs(v: Seq<String>) -> Seq<Seq<char>> {
    v.map_values(|x: String| x@)
}

/// `join(sep)` of a list of texts.
pub open spec fn join(ts: Seq<Seq<char>>, sep: Seq<char>) -> Seq<char>
    decreases ts.len(),
{
    if ts.len() == 0 {
        Seq::empty()
    } else if ts.len() == 1 {
        ts[0]
    } else {
        join(ts.drop_last(), sep) + sep + ts.last()
    }
}

/// The strings named by the ranges `sp` of `s`.
pub fn strings_of_spans(s: &[char], sp: &Vec<(usize, usize)>) -> (r: Vec<String>)
    requires
        spans_within(sp@, 0, s@.len() as int),
    ensures
        strs(r@) == spans(s@, sp@),
{
    let mut r: Vec<String> = Vec::new();
    let mut k: usize = 0;
    while k < sp.len()
        invariant
            k <= sp@.len(),
            spans_within(sp@, 0, s@.len() as int),
            strs(r@) == spans(s@, sp@).take(k as int),
        decreases sp@.len() - k,
    {
        let (a, b) = sp[k];
        assert(0 <= sp@[k as int].0 <= sp@[k as int].1 <= s@.len());
        let piece = string_of_range(s, a, b);
        let ghost old_r = r@;
        r.push(piece);
        assert(strs(r@) =~= strs(old_r).push(piece@));
        assert(spans(s@, sp@).take(k + 1) =~= spans(s@, sp@).take(k as int).push(
            spans(s@, sp@)[k as int],
        ));
        k = k + 1;
    }
    assert(spans(s@, sp@).take(k as int) =~= spans(s@, sp@));
    r
}

/// `join(sep)` of the ranges `sp[from..]` of `s`.
pub fn join_spans(s: &[char], sp: &Vec<(usize, usize)>, from: usize, sep: char) -> (r: Vec<char>)
    requires
        spans_within(sp@, 0, s@.len() as int),
        from <= sp@.len(),
    ensures
        r@ == join(spans(s@, sp@).skip(from as int), seq![sep]),
{
    let ghost all = spans(s@, sp@);
    let mut r: Vec<char> = Vec::new();
    let mut k = from;
    assert(all.subrange(from as int, from as int) =~= Seq::<Seq<char>>::empty());
    while k < sp.len()
        invariant
            from <= k <= sp@.len(),
            spans_within(sp@, 0, s@.len() as int),
            all == spans(s@, sp@),
            r@ == join(all.subrange(from as int, k as int), seq![sep]),
        decreases sp@.len() - k,
    {
        let (a, b) = sp[k];
        assert(0 <= sp@[k as int].0 <= sp@[k as int].1 <= s@.len());
        let ghost before = r@;
        if k > from {
            r.push(sep);
        }
        let mut i = a;
        while i < b
            invariant
                a <= i <= b <= s@.len(),
                r@ == (if k > from { before + seq![sep] } else { before }) + s@.subrange(
                    a as int,
                    i as int,
                ),
            decreases b - i,
        {
            r.push(s[i]);
            i = i + 1;
            assert(r@ =~= (if k > from { before + seq![sep] } else { before }) + s@.subrange(
                a as int,
                i as int,
            ));
        }
        let ghost piece = s@.subrange(a as int, b as int);
        assert(all[k as int] == piece);
        assert(all.subrange(from as int, k + 1).drop_last() =~= all.subrange(from as int, k as int));
        if k > from {
            assert(r@ =~= join(all.subrange(from as int, k as int), seq![sep]) + seq![sep] + piece);
        } else {
            assert(all.subrange(from as int, k + 1) =~= seq![piece]);
            assert(before =~= Seq::<char>::empty());
            assert(r@ =~= piece);
        }
        k = k + 1;
    }
    assert(all.subrange(from as int, k as int) =~= all.skip(from as int));
    r
}

/// Appends the characters of `t`.
pub fn push_str(out: &mut Vec<char>, t: &str)
    ensures
        final(out)@ == old(out)@ + t@,
{
    let c = chars_of(t);
    out.extend_from_slice(c.as_slice());
}

/// The text that `str::to_lowercase` makes of `s`.
pub uninterp spec fn lowercase_text(s: Seq<char>) -> Seq<char>;

/// `str::to_lowercase`: the named text; on ASCII text it lowers the
/// letters `A`-`Z` and keeps every other character.
#[verifier::external_body]
pub(crate) fn to_lowercase(s: &str) -> (r: String)
    ensures
        r@ == lowercase_text(s@),
        (forall|i: int| 0 <= i < s@.len() ==> (#[trigger] s@[i] as u32) < 128) ==> r@ == ascii_lowercase(s@),
{
    s.to_lowercase()
}

/// Whether two texts are equal.
pub fn str_eq(s: &str, lit: &str) -> (b: bool)
    ensures
        b == (s@ == lit@),
{
    let c = chars_of(s);
    let l = chars_of(lit);
    assert(c@.subrange(0, c@.len() as int) =~= c@);
    range_eq(c.as_slice(), 0, c.len(), l.as_slice())
}

/// An owned copy of `s`.
pub fn owned(s: &str) -> (r: String)
    ensures
        r@ == s@,
{
    let c = chars_of(s);
    string_from_chars(c.as_slice())
}

/// `a` followed by `b`.
pub fn concat(a: &str, b: &str) -> (r: String)
    ensures
        r@ == a@ + b@,
{
    let mut v = chars_of(a);
    push_str(&mut v, b);
    string_from_chars(v.as_slice())
}

/// The message of the error that `String::from_utf8` gives for bytes that
/// are not valid UTF-8; it depends on the bytes alone.
pub uninterp spec fn utf8_error_text(bytes: Seq<u8>) -> Seq<char>;

/// `String::from_utf8`: the text that the bytes encode when they are valid
/// UTF-8, or else the standard library's error message, named
/// `utf8_error_text` of the bytes (its words are left unstated).
#[verifier::external_body]
pub(crate) fn string_from_utf8(bytes: Vec<u8>) -> (r: Result<String, String>)
    ensures
        r is Ok <==> vstd::utf8::valid_utf8(bytes@),
        r matches Ok(s) ==> s@ == vstd::utf8::decode_utf8(bytes@),
        r matches Err(e) ==> e@ == utf8_error_text(bytes@),
{
    String::from_utf8(bytes).map_err(|e| e.to_string())
}

/// The UTF-8 bytes of a string.
pub fn bytes_of(s: &str) -> (v: Vec<u8>)
    ensures
        v@ == vstd::utf8::encode_utf8(s@),
{
    let b = s.as_bytes();
    let mut v: Vec<u8> = Vec::new();
    let mut i: usize = 0;
    while i < b.len()
        invariant
            i <= b@.len(),
            v@ == b@.take(i as int),
        decreases b@.len() - i,
    {
        v.push(b[i]);
        i = i + 1;
        assert(v@ =~= b@.take(i as int));
    }
    assert(b@.take(i as int) =~= b@);
    v
}

} // verus!
