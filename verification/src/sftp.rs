//! File-transfer helpers: permission modes, remote paths, directory listings
//! and the bookkeeping of a copy in progress.
use vstd::multiset::Multiset;
use vstd::prelude::*;

use crate::models::SftpEntry;
use crate::ssh::{clone_string, opt_view, path_join, path_join_str};
use crate::text::{
    chars_of, concat, octal, push_octal, push_str, split_char, string_from_chars, trim,
    trim_range,
};

verus! {

// ---------------------------------------------------------------------------
// Permission modes
// ---------------------------------------------------------------------------

pub open spec fn is_octal_digit(c: char) -> bool {
    '0' <= c && c <= '7'
}

/// The value of octal digits.
pub open spec fn octal_value(d: Seq<char>) -> nat
    decreases d.len(),
{
    if d.len() == 0 {
        0
    } else {
        octal_value(d.drop_last()) * 8 + (d.last() as int - '0' as int) as nat
    }
}

/// A `chmod` mode: three or four octal digits (surrounding whitespace
/// ignored; the length counts UTF-8 bytes).
pub open spec fn chmod_mode(mode: Seq<char>) -> Result<nat, Seq<char>> {
    let t = trim(mode);
    let n = vstd::utf8::encode_utf8(t).len();
    if !(n == 3 || n == 4) {
        Err("Mode must be a 3 or 4 digit octal value"@)
    } else if !(forall|i: int| 0 <= i < t.len() ==> is_octal_digit(#[trigger] t[i])) {
        Err("Mode must contain only octal digits 0-7"@)
    } else {
        Ok(octal_value(t))
    }
}

/// The UTF-8 length of `s[lo..hi]`.
fn utf8_len(s: &[char], lo: usize, hi: usize) -> (n: usize)
    requires
        lo <= hi <= s@.len(),
    ensures
        n == vstd::utf8::encode_utf8(s@.subrange(lo as int, hi as int)).len(),
{
    let mut v: Vec<char> = Vec::new();
    let mut i = lo;
    while i < hi
        invariant
            lo <= i <= hi <= s@.len(),
            v@ == s@.subrange(lo as int, i as int),
        decreases hi - i,
    {
        v.push(s[i]);
        i = i + 1;
        assert(v@ =~= s@.subrange(lo as int, i as int));
    }
    let st = string_from_chars(v.as_slice());
    crate::text::bytes_of(st.as_str()).len()
}

proof fn lemma_utf8_len_at_least(t: Seq<char>)
    ensures
        vstd::utf8::encode_utf8(t).len() >= t.len(),
    decreases t.len(),
{
    if t.len() > 0 {
        lemma_utf8_len_at_least(t.drop_first());
    }
}

pub fn parse_chmod_mode(mode: &str) -> (r: Result<u32, String>)
    ensures
        match (chmod_mode(mode@), r) {
            (Ok(v), Ok(w)) => v == w,
            (Err(m), Err(e)) => e@ == m,
            _ => false,
        },
        r matches Ok(m) ==> m <= 0o7777,
{
    let c = chars_of(mode);
    let (a, b) = trim_range(c.as_slice(), 0, c.len());
    assert(c@.subrange(0, c@.len() as int) =~= c@);
    let ghost t = c@.subrange(a as int, b as int);
    let n = utf8_len(c.as_slice(), a, b);
    if !(n == 3 || n == 4) {
        return Err(string_from_chars(chars_of("Mode must be a 3 or 4 digit octal value").as_slice()));
    }
    proof {
        lemma_utf8_len_at_least(t);
    }
    let mut v: u32 = 0;
    let mut i = a;
    while i < b
        invariant
            a <= i <= b <= c@.len(),
            t == c@.subrange(a as int, b as int),
            t == trim(mode@),
            n == vstd::utf8::encode_utf8(t).len(),
            n == 3 || n == 4,
            forall|k: int| 0 <= k < i - a ==> is_octal_digit(#[trigger] t[k]),
            v == octal_value(t.take(i - a)),
            v <= 0o7777,
            i - a <= 4,
            b - a <= 4,
        decreases b - i,
    {
        let ch = c[i];
        if !('0' <= ch && ch <= '7') {
            assert(!is_octal_digit(t[i - a]));
            return Err(string_from_chars(chars_of("Mode must contain only octal digits 0-7").as_slice()));
        }
        assert(t.take(i + 1 - a).drop_last() =~= t.take(i - a));
        assert(v < 512) by {
            lemma_octal_bound(t.take(i - a));
        }
        v = v * 8 + (ch as u32 - '0' as u32);
        i = i + 1;
    }
    assert(t.take(b - a) =~= t);
    Ok(v)
}

proof fn lemma_octal_bound(d: Seq<char>)
    requires
        d.len() <= 3,
        forall|i: int| 0 <= i < d.len() ==> is_octal_digit(#[trigger] d[i]),
    ensures
        octal_value(d) < 512,
    decreases d.len(),
{
    if d.len() > 0 {
        lemma_octal_bound(d.drop_last());
        assert(is_octal_digit(d[d.len() - 1]));
        if d.len() == 1 {
            assert(octal_value(d.drop_last()) == 0);
        } else if d.len() == 2 {
            lemma_octal_small(d.drop_last());
        } else {
            lemma_octal_small2(d.drop_last());
        }
    }
}

proof fn lemma_octal_small(d: Seq<char>)
    requires
        d.len() == 1,
        is_octal_digit(d[0]),
    ensures
        octal_value(d) < 8,
{
    assert(octal_value(d.drop_last()) == 0);
}

proof fn lemma_octal_small2(d: Seq<char>)
    requires
        d.len() == 2,
        is_octal_digit(d[0]),
        is_octal_digit(d[1]),
    ensures
        octal_value(d) < 64,
{
    lemma_octal_small(d.drop_last());
}

/// The permission bits of a mode in octal (`format!("{:o}", mode & 0o777)`).
pub fn permissions_text(mode: u32) -> (r: String)
    ensures
        r@ == octal((mode % 512) as nat),
{
    let m = mode & 0o777;
    assert(m == mode % 512) by (bit_vector)
        requires
            m == mode & 0o777,
    ;
    let mut v: Vec<char> = Vec::new();
    push_octal(&mut v, m as u64);
    assert(v@ =~= octal((mode % 512) as nat));
    string_from_chars(v.as_slice())
}

// ---------------------------------------------------------------------------
// Paths
// ---------------------------------------------------------------------------

/// `s` without its trailing `/` characters.
pub open spec fn strip_trailing_slashes(s: Seq<char>) -> Seq<char>
    decreases s.len(),
{
    if s.len() > 0 && s.last() == '/' {
        strip_trailing_slashes(s.drop_last())
    } else {
        s
    }
}

/// The remote path of `child_name` inside `parent`, without doubled slashes.
pub open spec fn child_path(parent: Seq<char>, child: Seq<char>) -> Seq<char> {
    if parent == "/"@ {
        "/"@ + child
    } else {
        strip_trailing_slashes(parent) + "/"@ + child
    }
}

proof fn lemma_strip_leaves_no_slash(s: Seq<char>)
    ensures
        strip_trailing_slashes(s).len() == 0 || strip_trailing_slashes(s).last() != '/',
    decreases s.len(),
{
    if s.len() > 0 && s.last() == '/' {
        lemma_strip_leaves_no_slash(s.drop_last());
    }
}

/// `r` is `q`, one slash and `child`, where `q` does not end with a slash.
pub open spec fn single_separator(r: Seq<char>, q: Seq<char>, child: Seq<char>) -> bool {
    r == q + "/"@ + child && (q.len() == 0 || q.last() != '/')
}

/// A child path is the parent's part, one slash, and the name: the part
/// before the slash never ends with another slash.
pub proof fn child_path_single_separator(parent: Seq<char>, child: Seq<char>)
    ensures
        exists|q: Seq<char>| #[trigger] single_separator(child_path(parent, child), q, child),
{
    if parent == "/"@ {
        let q = Seq::<char>::empty();
        assert(child_path(parent, child) =~= q + "/"@ + child);
        assert(single_separator(child_path(parent, child), q, child));
    } else {
        let q = strip_trailing_slashes(parent);
        lemma_strip_leaves_no_slash(parent);
        assert(single_separator(child_path(parent, child), q, child));
    }
}

pub fn remote_child_path(parent: &str, child_name: &str) -> (r: String)
    ensures
        r@ == child_path(parent@, child_name@),
{
    let p = chars_of(parent);
    let slash = chars_of("/");
    assert(p@.subrange(0, p@.len() as int) =~= p@);
    if crate::text::range_eq(p.as_slice(), 0, p.len(), slash.as_slice()) {
        return concat("/", child_name);
    }
    let mut end = p.len();
    while end > 0 && p[end - 1] == '/'
        invariant
            end <= p@.len(),
            strip_trailing_slashes(p@) == strip_trailing_slashes(p@.take(end as int)),
        decreases end,
    {
        assert(p@.take(end as int).drop_last() =~= p@.take(end - 1));
        end = end - 1;
    }
    let mut v: Vec<char> = Vec::new();
    let mut i: usize = 0;
    while i < end
        invariant
            i <= end <= p@.len(),
            v@ == p@.take(i as int),
        decreases end - i,
    {
        v.push(p[i]);
        i = i + 1;
        assert(v@ =~= p@.take(i as int));
    }
    push_str(&mut v, "/");
    push_str(&mut v, child_name);
    string_from_chars(v.as_slice())
}

/// The components of a Unix path that name something: empty pieces and `.`
/// are dropped.
pub open spec fn named_components(ps: Seq<Seq<char>>) -> Seq<Seq<char>>
    decreases ps.len(),
{
    if ps.len() == 0 {
        Seq::empty()
    } else if ps.last().len() == 0 || ps.last() == "."@ {
        named_components(ps.drop_last())
    } else {
        named_components(ps.drop_last()).push(ps.last())
    }
}

/// `Path::file_name` on Unix: the last component, unless the path ends in
/// `..` or has no component (`/`, `.`, the empty path).
pub open spec fn file_name(path: Seq<char>) -> Option<Seq<char>> {
    let cs = named_components(split_char(path, '/'));
    if cs.len() == 0 || cs.last() == ".."@ {
        None
    } else {
        Some(cs.last())
    }
}

pub fn path_file_name(path: &str) -> (r: Option<String>)
    ensures
        opt_view(r) == file_name(path@),
{
    let p = chars_of(path);
    assert(p@.subrange(0, p@.len() as int) =~= p@);
    let parts = crate::text::split_char_in(p.as_slice(), 0, p.len(), '/');
    let ghost pv = split_char(p@, '/');
    let dot = chars_of(".");
    let dotdot = chars_of("..");
    let mut last: Option<(usize, usize)> = None;
    let mut k: usize = 0;
    while k < parts.len()
        invariant
            k <= parts@.len(),
            pv == split_char(p@, '/'),
            crate::text::spans(p@, parts@) == pv,
            pv.len() == parts@.len(),
            crate::text::spans_within(parts@, 0, p@.len() as int),
            dot@ == "."@,
            match last {
                Some((a, b)) => a <= b <= p@.len() && named_components(pv.take(k as int)).len()
                    > 0 && named_components(pv.take(k as int)).last() == p@.subrange(
                    a as int,
                    b as int,
                ),
                None => named_components(pv.take(k as int)).len() == 0,
            },
        decreases parts@.len() - k,
    {
        let (a, b) = parts[k];
        assert(0 <= parts@[k as int].0 <= parts@[k as int].1 <= p@.len());
        assert(pv[k as int] == p@.subrange(a as int, b as int));
        assert(pv.take(k + 1).drop_last() =~= pv.take(k as int));
        assert(pv.take(k + 1).last() == pv[k as int]);
        if b > a && !crate::text::range_eq(p.as_slice(), a, b, dot.as_slice()) {
            last = Some((a, b));
        }
        k = k + 1;
    }
    assert(pv.take(k as int) =~= pv);
    match last {
        None => None,
        Some((a, b)) => {
            if crate::text::range_eq(p.as_slice(), a, b, dotdot.as_slice()) {
                None
            } else {
                Some(crate::text::string_of_range(p.as_slice(), a, b))
            }
        },
    }
}

/// The name under which a transferred file or directory is created: the
/// last component of its source path.
pub fn source_entry_name(path: &str) -> (r: Result<String, String>)
    ensures
        match file_name(path@) {
            Some(n) if n.len() > 0 => r matches Ok(m) && m@ == n,
            _ => r matches Err(e) && e@ == "Source path has no file name: "@ + path@,
        },
{
    match path_file_name(path) {
        Some(n) => if chars_of(n.as_str()).len() > 0 {
            Ok(n)
        } else {
            Err(concat("Source path has no file name: ", path))
        },
        None => Err(concat("Source path has no file name: ", path)),
    }
}

/// A blank path means the root directory.
pub fn normalize_path(path: &str) -> (r: String)
    ensures
        r@ == (if trim(path@).len() == 0 {
            "/"@
        } else {
            path@
        }),
{
    let c = chars_of(path);
    let (a, b) = trim_range(c.as_slice(), 0, c.len());
    assert(c@.subrange(0, c@.len() as int) =~= c@);
    if a == b {
        string_from_chars(chars_of("/").as_slice())
    } else {
        string_from_chars(c.as_slice())
    }
}

// ---------------------------------------------------------------------------
// Directory listings
// ---------------------------------------------------------------------------

/// Lexicographic order of texts by code point (the order of `str::cmp`).
pub open spec fn text_le(a: Seq<char>, b: Seq<char>) -> bool
    decreases a.len(),
{
    if a.len() == 0 {
        true
    } else if b.len() == 0 {
        false
    } else if a[0] != b[0] {
        a[0] < b[0]
    } else {
        text_le(a.drop_first(), b.drop_first())
    }
}

/// `text_le` is the lexicographic order by code point: `a` comes no later
/// than `b` exactly when `a` is a prefix of `b`, or when at the first place
/// where they differ `a` has the smaller character.
pub proof fn text_le_is_lexicographic(a: Seq<char>, b: Seq<char>)
    ensures
        text_le(a, b) <==> (a.len() <= b.len() && b.take(a.len() as int) == a) || (exists|k: int|
            0 <= k < a.len() && k < b.len() && a.take(k) == b.take(k) && #[trigger] a[k] < b[k]),
    decreases a.len(),
{
    if a.len() == 0 {
        assert(b.take(0) =~= a);
    } else if b.len() == 0 {
    } else if a[0] != b[0] {
        if a.len() <= b.len() && b.take(a.len() as int) == a {
            assert(b.take(a.len() as int)[0] == b[0]);
        }
        if a[0] < b[0] {
            assert(a.take(0) =~= b.take(0));
            assert(a[0] < b[0]);
        } else {
            assert forall|k: int| 0 <= k < a.len() && k < b.len() && a.take(k) == b.take(k) implies !(
            #[trigger] a[k] < b[k]) by {
                if k > 0 {
                    assert(a.take(k)[0] == b.take(k)[0]);
                }
            }
        }
    } else {
        let a1 = a.drop_first();
        let b1 = b.drop_first();
        text_le_is_lexicographic(a1, b1);
        if a1.len() <= b1.len() && b1.take(a1.len() as int) == a1 {
            assert(b.take(a.len() as int) =~= a) by {
                assert forall|i: int| 0 <= i < a.len() implies #[trigger] b.take(a.len() as int)[i] == a[i] by {
                    if i > 0 {
                        assert(b1.take(a1.len() as int)[i - 1] == a1[i - 1]);
                    }
                }
            }
        }
        if a.len() <= b.len() && b.take(a.len() as int) == a {
            assert(b1.take(a1.len() as int) =~= a1) by {
                assert forall|i: int| 0 <= i < a1.len() implies #[trigger] b1.take(a1.len() as int)[i] == a1[i] by {
                    assert(b.take(a.len() as int)[i + 1] == a[i + 1]);
                }
            }
        }
        if exists|k: int| 0 <= k < a1.len() && k < b1.len() && a1.take(k) == b1.take(k) && #[trigger] a1[k] < b1[k] {
            let k = choose|k: int| 0 <= k < a1.len() && k < b1.len() && a1.take(k) == b1.take(k) && #[trigger] a1[k] < b1[k];
            assert(a.take(k + 1) =~= b.take(k + 1)) by {
                assert forall|i: int| 0 <= i < k + 1 implies #[trigger] a.take(k + 1)[i] == b.take(k + 1)[i] by {
                    if i > 0 {
                        assert(a1.take(k)[i - 1] == b1.take(k)[i - 1]);
                    }
                }
            }
            assert(a[k + 1] < b[k + 1]);
        }
        if exists|k: int| 0 <= k < a.len() && k < b.len() && a.take(k) == b.take(k) && #[trigger] a[k] < b[k] {
            let k = choose|k: int| 0 <= k < a.len() && k < b.len() && a.take(k) == b.take(k) && #[trigger] a[k] < b[k];
            assert(k > 0);
            assert(a1.take(k - 1) =~= b1.take(k - 1)) by {
                assert forall|i: int| 0 <= i < k - 1 implies #[trigger] a1.take(k - 1)[i] == b1.take(k - 1)[i] by {
                    assert(a.take(k)[i + 1] == b.take(k)[i + 1]);
                }
            }
            assert(a1[k - 1] < b1[k - 1]);
        }
    }
}

pub proof fn lemma_text_le_total(a: Seq<char>, b: Seq<char>)
    ensures
        text_le(a, b) || text_le(b, a),
    decreases a.len(),
{
    if a.len() > 0 && b.len() > 0 && a[0] == b[0] {
        lemma_text_le_total(a.drop_first(), b.drop_first());
    }
}

pub proof fn lemma_text_le_trans(a: Seq<char>, b: Seq<char>, c: Seq<char>)
    requires
        text_le(a, b),
        text_le(b, c),
    ensures
        text_le(a, c),
    decreases a.len(),
{
    if a.len() > 0 && b.len() > 0 && c.len() > 0 && a[0] == b[0] && b[0] == c[0] {
        lemma_text_le_trans(a.drop_first(), b.drop_first(), c.drop_first());
    }
}

fn text_le_exec(a: &[char], b: &[char]) -> (r: bool)
    ensures
        r == text_le(a@, b@),
{
    let mut i: usize = 0;
    assert(a@.skip(0) =~= a@);
    assert(b@.skip(0) =~= b@);
    loop
        invariant
            i <= a@.len(),
            i <= b@.len(),
            text_le(a@, b@) == text_le(a@.skip(i as int), b@.skip(i as int)),
        decreases a@.len() - i,
    {
        if i == a.len() {
            return true;
        }
        if i == b.len() {
            return false;
        }
        if a[i] != b[i] {
            return a[i] < b[i];
        }
        assert(a@.skip(i as int).drop_first() =~= a@.skip(i + 1));
        assert(b@.skip(i as int).drop_first() =~= b@.skip(i + 1));
        i = i + 1;
    }
}

/// Directories come first, then entries in the order of their sort keys.
pub open spec fn listed_before(a_dir: bool, a_key: Seq<char>, b_dir: bool, b_key: Seq<char>) -> bool {
    if a_dir != b_dir {
        a_dir
    } else {
        text_le(a_key, b_key)
    }
}

/// An entry with the key it is sorted by.
pub struct KeyedEntry {
    pub key: Vec<char>,
    pub entry: SftpEntry,
}

pub open spec fn keyed_le(a: KeyedEntry, b: KeyedEntry) -> bool {
    listed_before(a.entry.is_dir, a.key@, b.entry.is_dir, b.key@)
}

pub open spec fn keyed_sorted(s: Seq<KeyedEntry>) -> bool {
    forall|i: int, j: int| 0 <= i < j < s.len() ==> keyed_le(#[trigger] s[i], #[trigger] s[j])
}

proof fn lemma_keyed_total(a: KeyedEntry, b: KeyedEntry)
    ensures
        keyed_le(a, b) || keyed_le(b, a),
{
    lemma_text_le_total(a.key@, b.key@);
}

proof fn lemma_keyed_trans(a: KeyedEntry, b: KeyedEntry, c: KeyedEntry)
    requires
        keyed_le(a, b),
        keyed_le(b, c),
    ensures
        keyed_le(a, c),
{
    if a.entry.is_dir == b.entry.is_dir && b.entry.is_dir == c.entry.is_dir {
        lemma_text_le_trans(a.key@, b.key@, c.key@);
    }
}

/// `perm` lists each index below `n` once.
pub open spec fn is_permutation(perm: Seq<int>, n: int) -> bool {
    &&& perm.len() == n
    &&& forall|i: int| 0 <= i < n ==> 0 <= #[trigger] perm[i] < n
    &&& forall|i: int, j: int| 0 <= i < j < n ==> #[trigger] perm[i] != #[trigger] perm[j]
}

/// `out` is `input` sorted, directories first and then by key, where the
/// entry at `k` is the input's entry at `perm[k]` and entries that compare
/// equal keep their input order.
pub open spec fn stable_sort_of(out: Seq<KeyedEntry>, input: Seq<KeyedEntry>, perm: Seq<int>) -> bool {
    &&& is_permutation(perm, input.len() as int)
    &&& out.len() == input.len()
    &&& forall|k: int| 0 <= k < out.len() ==> #[trigger] out[k] == input[perm[k]]
    &&& keyed_sorted(out)
    &&& forall|i: int, j: int|
        0 <= i < j < out.len() && keyed_le(#[trigger] out[j], #[trigger] out[i]) ==> perm[i] < perm[j]
}

/// Sorts entries, directories first and then by key, keeping the order of
/// entries that compare equal (an insertion sort).
pub fn sort_keyed(items: Vec<KeyedEntry>) -> (r: Vec<KeyedEntry>)
    ensures
        exists|perm: Seq<int>| stable_sort_of(r@, items@, perm),
        keyed_sorted(r@),
        r@.to_multiset() == items@.to_multiset(),
{
    broadcast use vstd::seq_lib::to_multiset_build, vstd::seq_lib::to_multiset_insert;

    broadcast use vstd::seq_lib::to_multiset_remove, vstd::multiset::group_multiset_axioms;

    let mut out: Vec<KeyedEntry> = Vec::new();
    let mut rest = items;
    let ghost all = rest@;
    let ghost mut perm: Seq<int> = Seq::empty();
    assert(out@.to_multiset() =~= Multiset::<KeyedEntry>::empty()) by {
        out@.to_multiset_ensures();
        vstd::multiset::lemma_multiset_empty_len(out@.to_multiset());
    }
    assert(out@.to_multiset().add(rest@.to_multiset()) =~= all.to_multiset());
    assert(rest@ =~= all.skip(0));
    while rest.len() > 0
        invariant
            keyed_sorted(out@),
            out@.to_multiset().add(rest@.to_multiset()) == all.to_multiset(),
            out@.len() + rest@.len() == all.len(),
            rest@ == all.skip(out@.len() as int),
            is_permutation(perm, out@.len() as int),
            forall|k: int| 0 <= k < out@.len() ==> #[trigger] out@[k] == all[perm[k]],
            forall|i: int, j: int|
                0 <= i < j < out@.len() && keyed_le(#[trigger] out@[j], #[trigger] out@[i]) ==> perm[i] < perm[j],
        decreases rest@.len(),
    {
        let ghost rest_before = rest@;
        let ghost n = out@.len() as int;
        let x = rest.remove(0);
        proof {
            vstd::seq_lib::to_multiset_remove(rest_before, 0);
            assert(x == all[n]);
            assert(rest@ =~= all.skip(n + 1));
        }
        assert(rest@.to_multiset() == rest_before.to_multiset().remove(x));
        assert(rest_before.to_multiset().contains(x)) by {
            vstd::seq_lib::to_multiset_contains(rest_before, x);
            assert(rest_before.contains(x)) by {
                assert(rest_before[0] == x);
            }
        }
        let mut p: usize = 0;
        while p < out.len() && keyed_le_exec(&out[p], &x)
            invariant
                p <= out@.len(),
                forall|j: int| 0 <= j < p ==> keyed_le(#[trigger] out@[j], x),
            decreases out@.len() - p,
        {
            p = p + 1;
        }
        let ghost old_out = out@;
        let ghost old_perm = perm;
        proof {
            if p < old_out.len() {
                assert(!keyed_le(old_out[p as int], x));
                lemma_keyed_total(old_out[p as int], x);
            }
            assert forall|i: int, j: int| 0 <= i < j < old_out.len() + 1 implies keyed_le(
                #[trigger] old_out.insert(p as int, x)[i],
                #[trigger] old_out.insert(p as int, x)[j],
            ) by {
                let t = old_out.insert(p as int, x);
                if j < p {
                    assert(t[i] == old_out[i] && t[j] == old_out[j]);
                } else if j == p {
                    assert(t[j] == x && t[i] == old_out[i]);
                } else if i == p {
                    assert(t[i] == x && t[j] == old_out[j - 1]);
                    if j - 1 > p {
                        assert(keyed_le(old_out[p as int], old_out[j - 1]));
                        lemma_keyed_trans(x, old_out[p as int], old_out[j - 1]);
                    }
                } else if i < p {
                    assert(t[i] == old_out[i] && t[j] == old_out[j - 1]);
                } else {
                    assert(t[i] == old_out[i - 1] && t[j] == old_out[j - 1]);
                }
            }
            perm = old_perm.insert(p as int, n);
        }
        out.insert(p, x);
        proof {
            vstd::seq_lib::to_multiset_insert(old_out, p as int, x);
            assert(out@ == old_out.insert(p as int, x));
            assert(is_permutation(perm, n + 1)) by {
                assert forall|i: int| 0 <= i < n + 1 implies 0 <= #[trigger] perm[i] < n + 1 by {
                    if i < p {
                        assert(perm[i] == old_perm[i]);
                    } else if i > p {
                        assert(perm[i] == old_perm[i - 1]);
                    }
                }
                assert forall|i: int, j: int| 0 <= i < j < n + 1 implies #[trigger] perm[i] != #[trigger] perm[j] by {
                    if i < p && j < p {
                        assert(perm[i] == old_perm[i] && perm[j] == old_perm[j]);
                    } else if i < p && j == p {
                        assert(perm[i] == old_perm[i]);
                    } else if i < p {
                        assert(perm[i] == old_perm[i] && perm[j] == old_perm[j - 1]);
                    } else if i == p {
                        assert(perm[j] == old_perm[j - 1]);
                    } else {
                        assert(perm[i] == old_perm[i - 1] && perm[j] == old_perm[j - 1]);
                    }
                }
            }
            assert forall|k: int| 0 <= k < out@.len() implies #[trigger] out@[k] == all[perm[k]] by {
                if k < p {
                    assert(out@[k] == old_out[k] && perm[k] == old_perm[k]);
                } else if k > p {
                    assert(out@[k] == old_out[k - 1] && perm[k] == old_perm[k - 1]);
                }
            }
            assert forall|i: int, j: int|
                0 <= i < j < out@.len() && keyed_le(#[trigger] out@[j], #[trigger] out@[i]) implies perm[i] < perm[j] by {
                if j < p {
                    assert(out@[i] == old_out[i] && out@[j] == old_out[j]);
                    assert(perm[i] == old_perm[i] && perm[j] == old_perm[j]);
                } else if j == p {
                    assert(perm[i] == old_perm[i]);
                } else if i == p {
                    assert(out@[j] == old_out[j - 1]);
                    if j - 1 > p {
                        assert(keyed_le(old_out[p as int], old_out[j - 1]));
                        lemma_keyed_trans(old_out[p as int], old_out[j - 1], x);
                    }
                } else if i < p {
                    assert(out@[i] == old_out[i] && out@[j] == old_out[j - 1]);
                    assert(perm[i] == old_perm[i] && perm[j] == old_perm[j - 1]);
                } else {
                    assert(out@[i] == old_out[i - 1] && out@[j] == old_out[j - 1]);
                    assert(perm[i] == old_perm[i - 1] && perm[j] == old_perm[j - 1]);
                }
            }
        }
        assert(out@.to_multiset() == old_out.to_multiset().insert(x));
        assert(out@.to_multiset().add(rest@.to_multiset()) =~= all.to_multiset());
    }
    assert(rest@.to_multiset() =~= Multiset::<KeyedEntry>::empty()) by {
        rest@.to_multiset_ensures();
        vstd::multiset::lemma_multiset_empty_len(rest@.to_multiset());
    }
    assert(out@.to_multiset().add(Multiset::<KeyedEntry>::empty()) =~= out@.to_multiset());
    assert(stable_sort_of(out@, all, perm));
    out
}

fn keyed_le_exec(a: &KeyedEntry, b: &KeyedEntry) -> (r: bool)
    ensures
        r == keyed_le(*a, *b),
{
    if a.entry.is_dir != b.entry.is_dir {
        a.entry.is_dir
    } else {
        text_le_exec(a.key.as_slice(), b.key.as_slice())
    }
}

/// What a remote directory listing reports of one entry.
pub struct RemoteStat {
    pub path: String,
    pub is_dir: bool,
    pub size: Option<u64>,
    pub perm: Option<u32>,
    pub mtime: Option<u64>,
}

/// The UTC date and time of a Unix timestamp as `YYYY-MM-DD HH:MM:SS`, when
/// chrono can represent it.
pub uninterp spec fn utc_timestamp_text(secs: i64) -> Option<Seq<char>>;

/// `chrono::DateTime::from_timestamp(secs, 0)` formatted with
/// `%Y-%m-%d %H:%M:%S`: the text named `utc_timestamp_text`, or `None` when
/// chrono has no such date.
#[verifier::external_body]
fn format_utc_timestamp(secs: i64) -> (r: Option<String>)
    ensures
        opt_view(r) == utc_timestamp_text(secs),
{
    chrono::DateTime::from_timestamp(secs, 0).map(|dt| dt.format("%Y-%m-%d %H:%M:%S").to_string())
}

/// The modification time shown for a remote entry (empty when unknown).
pub open spec fn modified_text(mtime: Option<u64>) -> Seq<char> {
    match mtime {
        Some(t) => match utc_timestamp_text(t as i64) {
            Some(x) => x,
            None => Seq::empty(),
        },
        None => Seq::empty(),
    }
}

/// The entry shown for a remote directory item, or none for `.` and `..`.
pub open spec fn remote_entry_of(st: RemoteStat, e: SftpEntry) -> bool {
    &&& e.name@ == name_or_empty(st.path@)
    &&& e.path@ == st.path@
    &&& e.is_dir == st.is_dir
    &&& e.size == (match st.size {
        Some(n) => n,
        None => 0,
    })
    &&& e.permissions@ == octal((match st.perm {
        Some(m) => m,
        None => 0,
    } % 512) as nat)
    &&& e.modified@ == modified_text(st.mtime)
}

pub open spec fn is_dot_name(n: Seq<char>) -> bool {
    n == "."@ || n == ".."@
}

pub fn remote_entry(st: &RemoteStat) -> (r: Option<SftpEntry>)
    ensures
        match r {
            Some(e) => remote_entry_of(*st, e) && !is_dot_name(e.name@),
            None => is_dot_name(name_or_empty(st.path@)),
        },
{
    let name = match path_file_name(st.path.as_str()) {
        Some(n) => n,
        None => String::new(),
    };
    let nc = chars_of(name.as_str());
    let dot = chars_of(".");
    let dotdot = chars_of("..");
    assert(nc@.subrange(0, nc@.len() as int) =~= nc@);
    if crate::text::range_eq(nc.as_slice(), 0, nc.len(), dot.as_slice())
        || crate::text::range_eq(nc.as_slice(), 0, nc.len(), dotdot.as_slice()) {
        return None;
    }
    let modified = match st.mtime {
        Some(t) => match format_utc_timestamp(t as i64) {
            Some(x) => x,
            None => String::new(),
        },
        None => String::new(),
    };
    Some(
        SftpEntry {
            name,
            path: clone_string(&st.path),
            is_dir: st.is_dir,
            size: match st.size {
                Some(n) => n,
                None => 0,
            },
            permissions: permissions_text(
                match st.perm {
                    Some(m) => m,
                    None => 0,
                },
            ),
            modified,
        },
    )
}

pub open spec fn entries_of(items: Seq<KeyedEntry>) -> Seq<SftpEntry> {
    items.map_values(|k: KeyedEntry| k.entry)
}

fn unkeyed(items: Vec<KeyedEntry>) -> (r: Vec<SftpEntry>)
    ensures
        r@ == entries_of(items@),
{
    let mut r: Vec<SftpEntry> = Vec::new();
    let mut rest = items;
    let ghost all = rest@;
    let n = rest.len();
    let mut k: usize = 0;
    while rest.len() > 0
        invariant
            k + rest@.len() == all.len(),
            all.len() == n,
            rest@ == all.skip(k as int),
            r@ == entries_of(all.take(k as int)),
        decreases rest@.len(),
    {
        let x = rest.remove(0);
        r.push(x.entry);
        assert(all.skip(k as int).drop_first() =~= all.skip(k + 1));
        assert(entries_of(all.take(k + 1)) =~= entries_of(all.take(k as int)).push(all[k as int].entry));
        k = k + 1;
    }
    assert(k == all.len());
    assert(all.take(k as int) =~= all);
    r
}

/// Directories first, then by `key`.
pub open spec fn sorted_by(s: Seq<SftpEntry>, key: spec_fn(SftpEntry) -> Seq<char>) -> bool {
    forall|i: int, j: int|
        0 <= i < j < s.len() ==> listed_before(
            #[trigger] s[i].is_dir,
            key(s[i]),
            #[trigger] s[j].is_dir,
            key(s[j]),
        )
}

/// In a sorted listing every directory comes before every file, and among
/// directories, or among files, the sort keys never decrease: for any two
/// entries of the same kind, the earlier key is a prefix of the later one
/// or has the smaller character where they first differ.
pub proof fn listing_order(s: Seq<SftpEntry>, key: spec_fn(SftpEntry) -> Seq<char>, i: int, j: int)
    requires
        sorted_by(s, key),
        0 <= i < j < s.len(),
    ensures
        s[j].is_dir ==> s[i].is_dir,
        s[i].is_dir == s[j].is_dir ==> (key(s[i]).len() <= key(s[j]).len() && key(s[j]).take(
            key(s[i]).len() as int,
        ) == key(s[i])) || (exists|k: int|
            0 <= k < key(s[i]).len() && k < key(s[j]).len() && key(s[i]).take(k) == key(s[j]).take(k)
                && #[trigger] key(s[i])[k] < key(s[j])[k]),
{
    assert(listed_before(s[i].is_dir, key(s[i]), s[j].is_dir, key(s[j])));
    text_le_is_lexicographic(key(s[i]), key(s[j]));
}

proof fn lemma_same_items(a: Seq<KeyedEntry>, b: Seq<KeyedEntry>)
    requires
        a.to_multiset() == b.to_multiset(),
    ensures
        forall|x: KeyedEntry| a.contains(x) <==> b.contains(x),
{
    a.to_multiset_ensures();
    b.to_multiset_ensures();
    assert forall|x: KeyedEntry| a.contains(x) <==> b.contains(x) by {
        assert(a.to_multiset().count(x) == b.to_multiset().count(x));
        assert(a.contains(x) <==> a.to_multiset().count(x) > 0);
        assert(b.contains(x) <==> b.to_multiset().count(x) > 0);
    }
}

/// The name of the last component of `path`, empty when there is none.
pub open spec fn name_or_empty(path: Seq<char>) -> Seq<char> {
    match file_name(path) {
        Some(n) => n,
        None => Seq::empty(),
    }
}

/// Every listed entry of `stats` stands in `items`.
pub open spec fn covers(stats: Seq<RemoteStat>, items: Seq<KeyedEntry>, upto: int) -> bool {
    forall|j: int|
        0 <= j < upto && !is_dot_name(name_or_empty(#[trigger] stats[j].path@)) ==> exists|i: int|
            0 <= i < items.len() && remote_entry_of(stats[j], items[i].entry)
}

/// How many of `stats` are listed: all but `.` and `..`.
pub open spec fn shown_count(stats: Seq<RemoteStat>) -> nat
    decreases stats.len(),
{
    if stats.len() == 0 {
        0
    } else {
        shown_count(stats.drop_last()) + if is_dot_name(name_or_empty(stats.last().path@)) {
            0nat
        } else {
            1nat
        }
    }
}

/// The items of `stats` at the indices `idx`, in order: each is shown by the
/// entry at the same place in `items`, keyed by its name.
pub open spec fn collected(stats: Seq<RemoteStat>, items: Seq<KeyedEntry>, idx: Seq<int>) -> bool {
    &&& idx.len() == items.len()
    &&& forall|i: int|
        0 <= i < items.len() ==> 0 <= #[trigger] idx[i] < stats.len() && !is_dot_name(
            name_or_empty(stats[idx[i]].path@),
        ) && remote_entry_of(stats[idx[i]], items[i].entry) && items[i].key@ == items[i].entry.name@
    &&& forall|i: int, j: int| 0 <= i < j < items.len() ==> #[trigger] idx[i] < #[trigger] idx[j]
}

fn collect_entries(stats: &Vec<RemoteStat>) -> (r: (Vec<KeyedEntry>, Ghost<Seq<int>>))
    ensures
        collected(stats@, r.0@, r.1@),
        covers(stats@, r.0@, stats@.len() as int),
        r.0@.len() == shown_count(stats@),
{
    let mut items: Vec<KeyedEntry> = Vec::new();
    let ghost mut idx: Seq<int> = Seq::empty();
    let mut k: usize = 0;
    while k < stats.len()
        invariant
            k <= stats@.len(),
            collected(stats@, items@, idx),
            forall|i: int| 0 <= i < idx.len() ==> #[trigger] idx[i] < k,
            covers(stats@, items@, k as int),
            items@.len() == shown_count(stats@.take(k as int)),
        decreases stats@.len() - k,
    {
        assert(stats@.take(k + 1).drop_last() =~= stats@.take(k as int));
        match remote_entry(&stats[k]) {
            Some(e) => {
                let key = chars_of(e.name.as_str());
                let ghost old_items = items@;
                let ghost old_idx = idx;
                items.push(KeyedEntry { key, entry: e });
                proof {
                    idx = old_idx.push(k as int);
                }
                assert(forall|i: int| 0 <= i < old_items.len() ==> items@[i] == old_items[i]);
                assert forall|i: int, j: int| 0 <= i < j < items@.len() implies #[trigger] idx[i] < #[trigger] idx[j] by {
                    if j < old_idx.len() {
                        assert(idx[i] == old_idx[i] && idx[j] == old_idx[j]);
                    } else {
                        assert(idx[i] == old_idx[i]);
                    }
                }
                assert forall|j: int|
                    0 <= j < k + 1 && !is_dot_name(name_or_empty(#[trigger] stats@[j].path@)) implies exists|i: int|
                        0 <= i < items@.len() && remote_entry_of(stats@[j], items@[i].entry) by {
                    if j < k {
                        let i = choose|i: int| 0 <= i < old_items.len() && remote_entry_of(stats@[j], old_items[i].entry);
                        assert(items@[i] == old_items[i]);
                    } else {
                        assert(remote_entry_of(stats@[j], items@[old_items.len() as int].entry));
                    }
                }
            },
            None => {},
        }
        k = k + 1;
    }
    assert(stats@.take(k as int) =~= stats@);
    (items, Ghost(idx))
}

/// `src[k]` is the index of the item of `stats` that `r[k]` shows: an item
/// with a name other than `.` and `..`, each at most once; entries that the
/// listing order ranks equal keep the order of their items.
pub open spec fn listing_sources(stats: Seq<RemoteStat>, r: Seq<SftpEntry>, src: Seq<int>) -> bool {
    &&& src.len() == r.len()
    &&& forall|k: int|
        0 <= k < r.len() ==> 0 <= #[trigger] src[k] < stats.len() && !is_dot_name(
            name_or_empty(stats[src[k]].path@),
        ) && remote_entry_of(stats[src[k]], r[k])
    &&& forall|i: int, j: int| 0 <= i < j < r.len() ==> #[trigger] src[i] != #[trigger] src[j]
    &&& forall|i: int, j: int|
        0 <= i < j < r.len() && listed_before(r[j].is_dir, r[j].name@, r[i].is_dir, r[i].name@)
            ==> #[trigger] src[i] < #[trigger] src[j]
}

/// The entries of a remote directory listing: one for each item but `.` and
/// `..`, directories first, then by name, items that rank equal in their
/// listed order.
pub fn list_dir_entries(stats: Vec<RemoteStat>) -> (r: Vec<SftpEntry>)
    ensures
        sorted_by(r@, |e: SftpEntry| e.name@),
        r@.len() == shown_count(stats@),
        exists|src: Seq<int>| listing_sources(stats@, r@, src),
        forall|j: int| 0 <= j < stats@.len() && !is_dot_name(name_or_empty(#[trigger] stats@[j].path@)) ==> exists|i: int| 0 <= i < r@.len() && remote_entry_of(stats@[j], r@[i]),
{
    let (items, Ghost(idx)) = collect_entries(&stats);
    let ghost before = items@;
    let sorted = sort_keyed(items);
    let ghost sv = sorted@;
    let ghost perm = choose|perm: Seq<int>| stable_sort_of(sv, before, perm);
    proof {
        lemma_same_items(sv, before);
        assert forall|j: int| 0 <= j < stats@.len() && !is_dot_name(name_or_empty(#[trigger] stats@[j].path@)) implies exists|i: int|
            0 <= i < sv.len() && remote_entry_of(stats@[j], sv[i].entry) by {
            let q = choose|q: int| 0 <= q < before.len() && remote_entry_of(stats@[j], before[q].entry);
            assert(before.contains(before[q]));
            let i = choose|i: int| 0 <= i < sv.len() && sv[i] == before[q];
            assert(remote_entry_of(stats@[j], sv[i].entry));
        }
    }
    let r = unkeyed(sorted);
    let ghost src = Seq::new(r@.len(), |k: int| idx[perm[k]]);
    proof {
        assert forall|k: int| 0 <= k < r@.len() implies 0 <= #[trigger] src[k] < stats@.len() && !is_dot_name(
            name_or_empty(stats@[src[k]].path@),
        ) && remote_entry_of(stats@[src[k]], r@[k]) by {
            assert(sv[k] == before[perm[k]]);
            assert(0 <= perm[k] < before.len());
            assert(r@[k] == sv[k].entry);
        }
        assert forall|i: int, j: int| 0 <= i < j < r@.len() implies #[trigger] src[i] != #[trigger] src[j] by {
            assert(perm[i] != perm[j]);
            if perm[i] < perm[j] {
                assert(idx[perm[i]] < idx[perm[j]]);
            } else {
                assert(idx[perm[j]] < idx[perm[i]]);
            }
        }
        assert forall|i: int, j: int|
            0 <= i < j < r@.len() && listed_before(r@[j].is_dir, r@[j].name@, r@[i].is_dir, r@[i].name@)
                implies #[trigger] src[i] < #[trigger] src[j] by {
            assert(sv[i] == before[perm[i]] && sv[j] == before[perm[j]]);
            assert(r@[i] == sv[i].entry && r@[j] == sv[j].entry);
            assert(0 <= perm[i] < before.len() && 0 <= perm[j] < before.len());
            assert(0 <= idx[perm[i]] && 0 <= idx[perm[j]]);
            assert(before[perm[i]].key@ == before[perm[i]].entry.name@);
            assert(before[perm[j]].key@ == before[perm[j]].entry.name@);
            assert(keyed_le(sv[j], sv[i]));
            assert(perm[i] < perm[j]);
            assert(idx[perm[i]] < idx[perm[j]]);
        }
        assert(listing_sources(stats@, r@, src));
    }
    assert forall|i: int, j: int| 0 <= i < j < r@.len() implies listed_before(
        #[trigger] r@[i].is_dir,
        r@[i].name@,
        #[trigger] r@[j].is_dir,
        r@[j].name@,
    ) by {
        assert(sv[i] == before[perm[i]] && sv[j] == before[perm[j]]);
        assert(0 <= perm[i] < before.len() && 0 <= perm[j] < before.len());
        assert(0 <= idx[perm[i]] && 0 <= idx[perm[j]]);
        assert(before[perm[i]].key@ == before[perm[i]].entry.name@);
        assert(before[perm[j]].key@ == before[perm[j]].entry.name@);
        assert(r@[i] == sv[i].entry && r@[j] == sv[j].entry);
        assert(keyed_le(sv[i], sv[j]));
    }
    assert forall|j: int| 0 <= j < stats@.len() && !is_dot_name(name_or_empty(#[trigger] stats@[j].path@)) implies exists|i: int| 0 <= i < r@.len() && remote_entry_of(stats@[j], r@[i]) by {
        let i = choose|i: int| 0 <= i < sv.len() && remote_entry_of(stats@[j], sv[i].entry);
        assert(r@[i] == sv[i].entry);
    }
    r
}

// ---------------------------------------------------------------------------
// Local listings
// ---------------------------------------------------------------------------

/// What the file system reports of one local directory item.
pub struct LocalStat {
    pub path: String,
    pub is_dir: bool,
    pub len: u64,
    pub mode: u32,
    pub modified: String,
}

/// The entry shown for a local item: named by its last component, or by
/// its whole path when it has none; a directory shows no size.
pub open spec fn local_entry_of(st: LocalStat, e: SftpEntry) -> bool {
    &&& e.name@ == (match file_name(st.path@) {
        Some(n) => n,
        None => st.path@,
    })
    &&& e.path@ == st.path@
    &&& e.is_dir == st.is_dir
    &&& e.size == (if st.is_dir {
        0
    } else {
        st.len
    })
    &&& e.permissions@ == octal((st.mode % 512) as nat)
    &&& e.modified@ == st.modified@
}

pub fn local_entry(st: LocalStat) -> (e: SftpEntry)
    ensures
        local_entry_of(st, e),
{
    let name = match path_file_name(st.path.as_str()) {
        Some(n) => n,
        None => clone_string(&st.path),
    };
    SftpEntry {
        name,
        path: st.path,
        is_dir: st.is_dir,
        size: if st.is_dir {
            0
        } else {
            st.len
        },
        permissions: permissions_text(st.mode),
        modified: st.modified,
    }
}

/// The name a local entry is sorted by.
pub open spec fn lower_name(e: SftpEntry) -> Seq<char> {
    crate::text::lowercase_text(e.name@)
}

/// `r` is `input` in another order: `r[k]` is `input[perm[k]]`; entries
/// that rank equal by lower-case name keep their input order.
pub open spec fn local_reordering(r: Seq<SftpEntry>, input: Seq<SftpEntry>, perm: Seq<int>) -> bool {
    &&& is_permutation(perm, input.len() as int)
    &&& r.len() == input.len()
    &&& forall|k: int| 0 <= k < r.len() ==> #[trigger] r[k] == input[perm[k]]
    &&& forall|i: int, j: int|
        0 <= i < j < r.len() && listed_before(r[j].is_dir, lower_name(r[j]), r[i].is_dir, lower_name(r[i]))
            ==> #[trigger] perm[i] < #[trigger] perm[j]
}

/// The entries of a local directory, directories first, then by name in
/// lower case; entries that rank equal keep their order.
pub fn list_local_entries(entries: Vec<SftpEntry>) -> (r: Vec<SftpEntry>)
    ensures
        sorted_by(r@, |e: SftpEntry| crate::text::lowercase_text(e.name@)),
        exists|perm: Seq<int>| #[trigger] local_reordering(r@, entries@, perm),
{
    let mut items: Vec<KeyedEntry> = Vec::new();
    let mut rest = entries;
    let ghost all = rest@;
    let n = rest.len();
    let mut k: usize = 0;
    while rest.len() > 0
        invariant
            k + rest@.len() == all.len(),
            all.len() == n,
            rest@ == all.skip(k as int),
            items@.len() == k,
            forall|i: int| 0 <= i < k ==> (#[trigger] items@[i]).entry == all[i]
                && items@[i].key@ == crate::text::lowercase_text(all[i].name@),
        decreases rest@.len(),
    {
        let e = rest.remove(0);
        let lower = crate::text::to_lowercase(e.name.as_str());
        let key = chars_of(lower.as_str());
        items.push(KeyedEntry { key, entry: e });
        assert(all.skip(k as int).drop_first() =~= all.skip(k + 1));
        k = k + 1;
    }
    let ghost before = items@;
    let sorted = sort_keyed(items);
    let ghost sv = sorted@;
    let ghost perm = choose|perm: Seq<int>| stable_sort_of(sv, before, perm);
    let r = unkeyed(sorted);
    proof {
        assert forall|k: int| 0 <= k < r@.len() implies #[trigger] r@[k] == all[perm[k]] && r@[k] == sv[k].entry
            && sv[k].key@ == lower_name(r@[k]) by {
            assert(sv[k] == before[perm[k]]);
            assert(0 <= perm[k] < before.len());
            assert(before[perm[k]].entry == all[perm[k]]);
        }
        assert forall|i: int, j: int|
            0 <= i < j < r@.len() && listed_before(r@[j].is_dir, lower_name(r@[j]), r@[i].is_dir, lower_name(r@[i]))
                implies #[trigger] perm[i] < #[trigger] perm[j] by {
            assert(r@[i] == sv[i].entry && r@[j] == sv[j].entry);
            assert(sv[i].key@ == lower_name(r@[i]) && sv[j].key@ == lower_name(r@[j]));
            assert(keyed_le(sv[j], sv[i]));
        }
        assert(local_reordering(r@, all, perm));
    }
    assert forall|i: int, j: int| 0 <= i < j < r@.len() implies listed_before(
        #[trigger] r@[i].is_dir,
        crate::text::lowercase_text(r@[i].name@),
        #[trigger] r@[j].is_dir,
        crate::text::lowercase_text(r@[j].name@),
    ) by {
        assert(r@[i] == sv[i].entry && r@[j] == sv[j].entry);
        assert(sv[i].key@ == lower_name(r@[i]) && sv[j].key@ == lower_name(r@[j]));
        assert(keyed_le(sv[i], sv[j]));
    }
    r
}

// ---------------------------------------------------------------------------
// Walking a tree to copy or remove it
// ---------------------------------------------------------------------------

/// Where a download of `remote_path` into `local_parent` puts it.
pub fn download_target(remote_path: &str, local_parent: &str) -> (r: Result<String, String>)
    ensures
        match file_name(remote_path@) {
            Some(n) if n.len() > 0 => r is Ok && r->Ok_0@ == path_join(local_parent@, n),
            _ => r is Err && r->Err_0@ == "Source path has no file name: "@ + remote_path@,
        },
{
    let name = source_entry_name(remote_path)?;
    Ok(path_join_str(local_parent, name.as_str()))
}

/// Where an upload of `local_path` into `remote_parent` puts it.
pub fn upload_target(local_path: &str, remote_parent: &str) -> (r: Result<String, String>)
    ensures
        match file_name(local_path@) {
            Some(n) if n.len() > 0 => r is Ok && r->Ok_0@ == child_path(remote_parent@, n),
            _ => r is Err && r->Err_0@ == "Source path has no file name: "@ + local_path@,
        },
{
    let name = source_entry_name(local_path)?;
    Ok(remote_child_path(remote_parent, name.as_str()))
}

/// For an item `child` listed in the remote directory `remote_dir`, copied
/// down into `local_dir`: its remote and local paths, nothing for `.` and
/// `..`, an error when it has no name.
pub fn download_child(remote_dir: &str, local_dir: &str, child: &str) -> (r: Result<Option<(String, String)>, String>)
    ensures
        match file_name(child@) {
            Some(n) if n.len() > 0 => if is_dot_name(n) {
                r == Ok::<Option<(String, String)>, String>(None)
            } else {
                r is Ok && r->Ok_0 is Some && r->Ok_0->Some_0.0@ == child_path(remote_dir@, n)
                    && r->Ok_0->Some_0.1@ == path_join(local_dir@, n)
            },
            _ => r is Err && r->Err_0@ == "Source path has no file name: "@ + child@,
        },
{
    let name = source_entry_name(child)?;
    let nc = chars_of(name.as_str());
    let dot = chars_of(".");
    let dotdot = chars_of("..");
    assert(nc@.subrange(0, nc@.len() as int) =~= nc@);
    if crate::text::range_eq(nc.as_slice(), 0, nc.len(), dot.as_slice())
        || crate::text::range_eq(nc.as_slice(), 0, nc.len(), dotdot.as_slice()) {
        return Ok(None);
    }
    let remote = remote_child_path(remote_dir, name.as_str());
    let local = path_join_str(local_dir, name.as_str());
    Ok(Some((remote, local)))
}

/// For an item `child` of a local directory copied up into `remote_dir`:
/// its remote path, an error when it has no name.
pub fn upload_child(remote_dir: &str, child: &str) -> (r: Result<String, String>)
    ensures
        match file_name(child@) {
            Some(n) if n.len() > 0 => r is Ok && r->Ok_0@ == child_path(remote_dir@, n),
            _ => r is Err && r->Err_0@ == "Source path has no file name: "@ + child@,
        },
{
    upload_target(child, remote_dir)
}

/// Whether a listed item is removed with its directory: every item with a
/// name but `.` and `..`.
pub fn removable_child(child: &str) -> (r: bool)
    ensures
        r == (match file_name(child@) {
            Some(n) => !is_dot_name(n),
            None => false,
        }),
{
    match path_file_name(child) {
        Some(name) => {
            let nc = chars_of(name.as_str());
            let dot = chars_of(".");
            let dotdot = chars_of("..");
            assert(nc@.subrange(0, nc@.len() as int) =~= nc@);
            !(crate::text::range_eq(nc.as_slice(), 0, nc.len(), dot.as_slice())
                || crate::text::range_eq(nc.as_slice(), 0, nc.len(), dotdot.as_slice()))
        },
        None => false,
    }
}

/// The outcome of making a remote directory: fine when it was made or
/// already stands as a directory; else the error of `mkdir`.
pub fn ensure_dir_outcome(path: &str, mkdir_error: Option<String>, is_dir_now: bool) -> (r: Result<(), String>)
    ensures
        match mkdir_error {
            None => r is Ok,
            Some(e) => if is_dir_now {
                r is Ok
            } else {
                r is Err && r->Err_0@ == "Create remote dir failed for "@ + path@ + ": "@ + e@
            },
        },
{
    match mkdir_error {
        None => Ok(()),
        Some(e) => if is_dir_now {
            Ok(())
        } else {
            let mut v = chars_of("Create remote dir failed for ");
            push_str(&mut v, path);
            push_str(&mut v, ": ");
            push_str(&mut v, e.as_str());
            Err(string_from_chars(v.as_slice()))
        },
    }
}

/// A step of copying or removing a tree that can fail, on one path.
pub enum WalkStep {
    RemoteStat,
    CreateLocalDir,
    RemoteReadDir,
    CreateLocalParent,
    OpenRemoteFile,
    CreateLocalFile,
    LocalStat,
    LocalReadDir,
    OpenLocalFile,
    CreateRemoteFile,
    FlushRemoteFile,
    StatBeforeRemove,
    ReadDirBeforeRemove,
    RemoveDir,
    RemoveFile,
}

/// What the message of a failed step says before the path.
pub open spec fn walk_step_text(step: WalkStep) -> Seq<char> {
    match step {
        WalkStep::RemoteStat => "Remote stat failed for "@,
        WalkStep::CreateLocalDir => "Create local dir failed for "@,
        WalkStep::RemoteReadDir => "Remote read dir failed for "@,
        WalkStep::CreateLocalParent => "Create local parent failed for "@,
        WalkStep::OpenRemoteFile => "Open remote file failed for "@,
        WalkStep::CreateLocalFile => "Create local file failed for "@,
        WalkStep::LocalStat => "Local stat failed for "@,
        WalkStep::LocalReadDir => "Local read dir failed for "@,
        WalkStep::OpenLocalFile => "Open local file failed for "@,
        WalkStep::CreateRemoteFile => "Create remote file failed for "@,
        WalkStep::FlushRemoteFile => "Flush remote file failed for "@,
        WalkStep::StatBeforeRemove => "Stat before remove failed for "@,
        WalkStep::ReadDirBeforeRemove => "Read dir before remove failed for "@,
        WalkStep::RemoveDir => "Remove dir failed for "@,
        WalkStep::RemoveFile => "Remove file failed for "@,
    }
}

fn walk_step_str(step: &WalkStep) -> (r: &'static str)
    ensures
        r@ == walk_step_text(*step),
{
    match step {
        WalkStep::RemoteStat => "Remote stat failed for ",
        WalkStep::CreateLocalDir => "Create local dir failed for ",
        WalkStep::RemoteReadDir => "Remote read dir failed for ",
        WalkStep::CreateLocalParent => "Create local parent failed for ",
        WalkStep::OpenRemoteFile => "Open remote file failed for ",
        WalkStep::CreateLocalFile => "Create local file failed for ",
        WalkStep::LocalStat => "Local stat failed for ",
        WalkStep::LocalReadDir => "Local read dir failed for ",
        WalkStep::OpenLocalFile => "Open local file failed for ",
        WalkStep::CreateRemoteFile => "Create remote file failed for ",
        WalkStep::FlushRemoteFile => "Flush remote file failed for ",
        WalkStep::StatBeforeRemove => "Stat before remove failed for ",
        WalkStep::ReadDirBeforeRemove => "Read dir before remove failed for ",
        WalkStep::RemoveDir => "Remove dir failed for ",
        WalkStep::RemoveFile => "Remove file failed for ",
    }
}

/// The error of a failed step on `path`, from the failure's own message.
pub fn walk_failure(step: WalkStep, path: &str, e: &str) -> (r: String)
    ensures
        r@ == walk_step_text(step) + path@ + ": "@ + e@,
{
    let mut v = chars_of(walk_step_str(&step));
    push_str(&mut v, path);
    push_str(&mut v, ": ");
    push_str(&mut v, e);
    string_from_chars(v.as_slice())
}

/// The error of a failed copy of one file: a download goes from a remote
/// file to a local one, an upload the other way.
pub fn copy_file_failure(download: bool, from: &str, to: &str, e: &str) -> (r: String)
    ensures
        r@ == (if download {
            "Copy remote file failed from "@
        } else {
            "Copy local file failed from "@
        }) + from@ + " to "@ + to@ + ": "@ + e@,
{
    let mut v = if download {
        chars_of("Copy remote file failed from ")
    } else {
        chars_of("Copy local file failed from ")
    };
    push_str(&mut v, from);
    push_str(&mut v, " to ");
    push_str(&mut v, to);
    push_str(&mut v, ": ");
    push_str(&mut v, e);
    string_from_chars(v.as_slice())
}

/// The error of an unreadable entry of a local directory.
pub fn read_dir_entry_failure(e: &str) -> (r: String)
    ensures
        r@ == "Local read dir entry failed: "@ + e@,
{
    concat("Local read dir entry failed: ", e)
}

/// What a copy of the file at `source_path` reports: the size its source
/// gave, 0 when it gave none, and the name of the file.
pub fn file_copy_plan(source_path: &str, size: Option<u64>) -> (r: Result<(u64, String), String>)
    ensures
        match file_name(source_path@) {
            Some(n) if n.len() > 0 => r matches Ok((t, m)) && m@ == n && t == (match size {
                Some(z) => z,
                None => 0u64,
            }),
            _ => r matches Err(e) && e@ == "Source path has no file name: "@ + source_path@,
        },
{
    let total = match size {
        Some(z) => z,
        None => 0,
    };
    let name = source_entry_name(source_path)?;
    Ok((total, name))
}

} // verus!
