//! Parsing of the report printed by the host-monitor shell script.
//!
//! The script prints sections introduced by `===NAME===` markers and closed by
//! `===END===`.  Figures that the report gives as decimal fractions (CPU
//! usage, load averages, GPU readings, per-process CPU and memory shares) are
//! kept as the text the host printed; every integer figure is parsed here.
use vstd::prelude::*;

use crate::text::{
    join, join_spans, split_char, split_char_in, string_from_chars, strings_of_spans, strs,
    chars_of, find, find_in, lines, lines_in, parse_unsigned, parse_unsigned_in, spans,
    spans_within, starts_with, starts_with_in, string_of_range, tokens, tokens_in, trim,
    trim_range,
};

verus! {

// ---------------------------------------------------------------------------
// Sections
// ---------------------------------------------------------------------------

/// `s` without its leading `\n` characters (`trim_start_matches('\n')`).
pub open spec fn trim_start_newlines(s: Seq<char>) -> Seq<char>
    decreases s.len(),
{
    if s.len() > 0 && s[0] == '\n' {
        trim_start_newlines(s.drop_first())
    } else {
        s
    }
}

/// The marker `===NAME===` that opens a section.
pub open spec fn section_marker(name: Seq<char>) -> Seq<char> {
    "==="@ + name + "==="@
}

/// The trimmed text of the first section called `name`: what follows its
/// marker (leading newlines dropped) up to the next line that starts with
/// `===`, or to the end of `data`.
pub open spec fn section(data: Seq<char>, name: Seq<char>) -> Option<Seq<char>> {
    match find(data, section_marker(name)) {
        Some(i) => {
            let rem = trim_start_newlines(data.skip(i + section_marker(name).len()));
            let end = match find(rem, "\n==="@) {
                Some(e) => e,
                None => rem.len() as int,
            };
            Some(trim(rem.take(end)))
        },
        None => None,
    }
}

/// The text of a section, or the empty text when it is missing.
pub open spec fn section_text(data: Seq<char>, name: Seq<char>) -> Seq<char> {
    match section(data, name) {
        Some(t) => t,
        None => Seq::empty(),
    }
}

/// Index of the first character of `s[lo..hi]` that is not `\n`.
fn skip_newlines(s: &[char], lo: usize, hi: usize) -> (a: usize)
    requires
        lo <= hi <= s@.len(),
    ensures
        lo <= a <= hi,
        trim_start_newlines(s@.subrange(lo as int, hi as int)) == s@.subrange(a as int, hi as int),
{
    let mut a = lo;
    while a < hi && s[a] == '\n'
        invariant
            lo <= a <= hi <= s@.len(),
            trim_start_newlines(s@.subrange(lo as int, hi as int)) == trim_start_newlines(
                s@.subrange(a as int, hi as int),
            ),
        decreases hi - a,
    {
        assert(s@.subrange(a as int, hi as int).drop_first() =~= s@.subrange(a + 1, hi as int));
        a = a + 1;
    }
    a
}

/// The range of `section(s[0..hi], name)` inside `s`.
pub fn section_range(s: &[char], hi: usize, name: &str) -> (r: Option<(usize, usize)>)
    requires
        hi <= s@.len(),
    ensures
        match r {
            Some((a, b)) => a <= b <= hi && section(s@.take(hi as int), name@) == Some(
                s@.subrange(a as int, b as int),
            ),
            None => section(s@.take(hi as int), name@) is None,
        },
{
    let ghost data = s@.take(hi as int);
    assert(data =~= s@.subrange(0, hi as int));
    let mut marker = chars_of("===");
    let name_chars = chars_of(name);
    let tail = chars_of("===");
    let ghost m0 = marker@;
    marker.extend_from_slice(name_chars.as_slice());
    marker.extend_from_slice(tail.as_slice());
    assert(marker@ =~= section_marker(name@));
    match find_in(s, 0, hi, marker.as_slice()) {
        None => None,
        Some(k) => {
            let start = k + marker.len();
            assert(data.skip(k + section_marker(name@).len()) =~= s@.subrange(
                start as int,
                hi as int,
            ));
            let a = skip_newlines(s, start, hi);
            let ghost rem = s@.subrange(a as int, hi as int);
            let close = chars_of("\n===");
            let e = match find_in(s, a, hi, close.as_slice()) {
                Some(e) => e,
                None => hi,
            };
            assert(rem.take(e - a) =~= s@.subrange(a as int, e as int));
            let (x, y) = trim_range(s, a, e);
            Some((x, y))
        },
    }
}

/// The text of the section `section` of `data`, trimmed.
pub fn extract_section(data: &str, section: &str) -> (r: Option<String>)
    ensures
        match r {
            Some(t) => crate::monitor::section(data@, section@) == Some(t@),
            None => crate::monitor::section(data@, section@) is None,
        },
{
    let s = chars_of(data);
    assert(s@.take(s@.len() as int) =~= data@);
    match section_range(s.as_slice(), s.len(), section) {
        Some((a, b)) => Some(string_of_range(s.as_slice(), a, b)),
        None => None,
    }
}

// ---------------------------------------------------------------------------
// Memory figures
// ---------------------------------------------------------------------------

/// `parse::<u64>()`, with `default` when the text is not a `u64`.
pub open spec fn u64_or(t: Seq<char>, default: u64) -> u64 {
    match parse_unsigned(t, u64::MAX as nat) {
        Some(v) => v as u64,
        None => default,
    }
}

/// The first of `ls` that starts with `key`.
pub open spec fn first_line_with(ls: Seq<Seq<char>>, key: Seq<char>) -> Option<Seq<char>>
    decreases ls.len(),
{
    if ls.len() == 0 {
        None
    } else if starts_with(ls[0], key) {
        Some(ls[0])
    } else {
        first_line_with(ls.drop_first(), key)
    }
}

/// The number in the second field of the first line that starts with `key`,
/// or 0.
pub open spec fn mem_value(section: Seq<char>, key: Seq<char>) -> u64 {
    match first_line_with(lines(section), key) {
        Some(l) => if tokens(l).len() > 1 {
            u64_or(tokens(l)[1], 0)
        } else {
            0
        },
        None => 0,
    }
}

/// `parse::<u64>()` of `s[lo..hi]`, or `default`.
pub fn parse_u64_or(s: &[char], lo: usize, hi: usize, default: u64) -> (v: u64)
    requires
        lo <= hi <= s@.len(),
    ensures
        v == u64_or(s@.subrange(lo as int, hi as int), default),
{
    match parse_unsigned_in(s, lo, hi, u64::MAX) {
        Some(v) => v,
        None => default,
    }
}

/// `mem_value(s[lo..hi], key)`.
pub fn mem_value_in(s: &[char], lo: usize, hi: usize, key: &[char]) -> (v: u64)
    requires
        lo <= hi <= s@.len(),
    ensures
        v == mem_value(s@.subrange(lo as int, hi as int), key@),
{
    let ls = lines_in(s, lo, hi);
    let ghost lv = lines(s@.subrange(lo as int, hi as int));
    let mut k: usize = 0;
    assert(lv.skip(0) =~= lv);
    while k < ls.len()
        invariant
            k <= ls@.len(),
            lv.len() == ls@.len(),
            lv == lines(s@.subrange(lo as int, hi as int)),
            spans(s@, ls@) == lv,
            spans_within(ls@, lo as int, hi as int),
            hi <= s@.len(),
            first_line_with(lv, key@) == first_line_with(lv.skip(k as int), key@),
        decreases ls@.len() - k,
    {
        let (a, b) = ls[k];
        assert(lo <= ls@[k as int].0 <= ls@[k as int].1 <= hi);
        let ghost line = s@.subrange(a as int, b as int);
        assert(lv[k as int] == line);
        assert(lv.skip(k as int).len() > 0);
        assert(lv.skip(k as int)[0] == line);
        assert(lv.skip(k as int).drop_first() =~= lv.skip(k + 1));
        if starts_with_in(s, a, b, key) {
            assert(first_line_with(lv.skip(k as int), key@) == Some(line));
            let toks = tokens_in(s, a, b);
            assert(tokens(line).len() == toks@.len());
            if toks.len() > 1 {
                let (x, y) = toks[1];
                assert(a <= toks@[1].0 <= toks@[1].1 <= b);
                assert(tokens(line)[1] == s@.subrange(x as int, y as int));
                return parse_u64_or(s, x, y, 0);
            } else {
                assert(tokens(line).len() == toks@.len());
                return 0;
            }
        }
        k = k + 1;
    }
    assert(lv.skip(k as int) =~= Seq::<Seq<char>>::empty());
    0
}

/// The number given for `key` in the memory section (`MemTotal: 10 kB`), or 0.
pub fn extract_mem_value(mem_section: &str, key: &str) -> (v: u64)
    ensures
        v == mem_value(mem_section@, key@),
{
    let s = chars_of(mem_section);
    let k = chars_of(key);
    assert(s@.subrange(0, s@.len() as int) =~= s@);
    mem_value_in(s.as_slice(), 0, s.len(), k.as_slice())
}

// ---------------------------------------------------------------------------
// Processes
// ---------------------------------------------------------------------------

/// One row of the process tables: `pid pcpu pmem comm args...`.  The CPU and
/// memory shares are the decimal text that `ps` printed.
pub struct ProcessInfo {
    pub pid: u32,
    pub cpu: String,
    pub memory: String,
    pub command: String,
    pub args: String,
}

pub struct ProcessRow {
    pub pid: u32,
    pub cpu: Seq<char>,
    pub memory: Seq<char>,
    pub command: Seq<char>,
    pub args: Seq<char>,
}

impl View for ProcessInfo {
    type V = ProcessRow;

    open spec fn view(&self) -> ProcessRow {
        ProcessRow {
            pid: self.pid,
            cpu: self.cpu@,
            memory: self.memory@,
            command: self.command@,
            args: self.args@,
        }
    }
}

/// A process row, when the line has a numeric pid and at least three fields.
pub open spec fn process_row(line: Seq<char>) -> Option<ProcessRow> {
    let t = tokens(line);
    if t.len() >= 3 && parse_unsigned(t[0], u32::MAX as nat) is Some {
        Some(
            ProcessRow {
                pid: parse_unsigned(t[0], u32::MAX as nat)->0 as u32,
                cpu: t[1],
                memory: t[2],
                command: if t.len() > 3 {
                    t[3]
                } else {
                    Seq::empty()
                },
                args: if t.len() > 4 {
                    join(t.skip(4), seq![' '])
                } else {
                    Seq::empty()
                },
            },
        )
    } else {
        None
    }
}

/// The process rows of the lines that form one.
pub open spec fn process_rows(ls: Seq<Seq<char>>) -> Seq<ProcessRow>
    decreases ls.len(),
{
    if ls.len() == 0 {
        Seq::empty()
    } else {
        match process_row(ls.last()) {
            Some(p) => process_rows(ls.drop_last()).push(p),
            None => process_rows(ls.drop_last()),
        }
    }
}

pub open spec fn views_of_processes(v: Seq<ProcessInfo>) -> Seq<ProcessRow> {
    v.map_values(|p: ProcessInfo| p@)
}

fn process_in(s: &[char], a: usize, b: usize) -> (r: Option<ProcessInfo>)
    requires
        a <= b <= s@.len(),
    ensures
        match r {
            Some(p) => process_row(s@.subrange(a as int, b as int)) == Some(p@),
            None => process_row(s@.subrange(a as int, b as int)) is None,
        },
{
    let ghost line = s@.subrange(a as int, b as int);
    let t = tokens_in(s, a, b);
    let ghost tv = tokens(line);
    assert(tv.len() == t@.len());
    if t.len() < 3 {
        return None;
    }
    assert(forall|k: int| 0 <= k < t@.len() ==> tv[k] == s@.subrange(t@[k].0 as int, t@[k].1 as int));
    assert(a <= t@[0].0 <= t@[0].1 <= b);
    assert(a <= t@[1].0 <= t@[1].1 <= b);
    assert(a <= t@[2].0 <= t@[2].1 <= b);
    let pid = match parse_unsigned_in(s, t[0].0, t[0].1, u32::MAX as u64) {
        Some(v) => v as u32,
        None => {
            return None;
        },
    };
    let cpu = string_of_range(s, t[1].0, t[1].1);
    let memory = string_of_range(s, t[2].0, t[2].1);
    let command = if t.len() > 3 {
        assert(a <= t@[3].0 <= t@[3].1 <= b);
        string_of_range(s, t[3].0, t[3].1)
    } else {
        string_from_chars(&[])
    };
    assert(spans_within(t@, 0, s@.len() as int));
    let args = if t.len() > 4 {
        let j = join_spans(s, &t, 4, ' ');
        string_from_chars(j.as_slice())
    } else {
        string_from_chars(&[])
    };
    let p = ProcessInfo { pid, cpu, memory, command, args };
    let ghost want = process_row(line)->0;
    assert(tv[1] == s@.subrange(t@[1].0 as int, t@[1].1 as int));
    assert(tv[2] == s@.subrange(t@[2].0 as int, t@[2].1 as int));
    assert(p.cpu@ == want.cpu);
    assert(p.memory@ == want.memory);
    assert(p.pid == want.pid);
    assert(p.command@ == want.command) by {
        if t@.len() > 3 {
            assert(tv[3] == s@.subrange(t@[3].0 as int, t@[3].1 as int));
        } else {
            assert(p.command@ =~= Seq::<char>::empty());
        }
    }
    assert(p.args@ == want.args) by {
        if t@.len() <= 4 {
            assert(p.args@ =~= Seq::<char>::empty());
        }
    }
    assert(p@ == want);
    Some(p)
}

/// The process rows of the lines of `s[lo..hi]`.
pub fn parse_processes_in(s: &[char], lo: usize, hi: usize) -> (r: Vec<ProcessInfo>)
    requires
        lo <= hi <= s@.len(),
    ensures
        views_of_processes(r@) == process_rows(lines(s@.subrange(lo as int, hi as int))),
{
    let ls = lines_in(s, lo, hi);
    let ghost lv = lines(s@.subrange(lo as int, hi as int));
    let mut r: Vec<ProcessInfo> = Vec::new();
    let mut k: usize = 0;
    while k < ls.len()
        invariant
            k <= ls@.len(),
            hi <= s@.len(),
            lv == lines(s@.subrange(lo as int, hi as int)),
            lv.len() == ls@.len(),
            spans(s@, ls@) == lv,
            spans_within(ls@, lo as int, hi as int),
            views_of_processes(r@) == process_rows(lv.take(k as int)),
        decreases ls@.len() - k,
    {
        let (a, b) = ls[k];
        assert(lo <= ls@[k as int].0 <= ls@[k as int].1 <= hi);
        assert(lv[k as int] == s@.subrange(a as int, b as int));
        assert(lv.take(k + 1).drop_last() =~= lv.take(k as int));
        assert(lv.take(k + 1).last() == lv[k as int]);
        let ghost old_r = r@;
        match process_in(s, a, b) {
            Some(p) => {
                r.push(p);
                assert(views_of_processes(r@) =~= views_of_processes(old_r).push(p@));
            },
            None => {},
        }
        k = k + 1;
    }
    assert(lv.take(k as int) =~= lv);
    r
}

/// The rows of a process table (`pid pcpu pmem comm args...` per line);
/// lines without a numeric pid or with fewer than three fields are skipped.
pub fn parse_processes(section: &str) -> (r: Vec<ProcessInfo>)
    ensures
        views_of_processes(r@) == process_rows(lines(section@)),
{
    let s = chars_of(section);
    assert(s@.subrange(0, s@.len() as int) =~= s@);
    parse_processes_in(s.as_slice(), 0, s.len())
}

// ---------------------------------------------------------------------------
// CPU usage
// ---------------------------------------------------------------------------

/// The first field of a line, or the empty text.
pub open spec fn field_or_empty(t: Seq<Seq<char>>, i: int) -> Seq<char> {
    if 0 <= i < t.len() {
        t[i]
    } else {
        Seq::empty()
    }
}

/// Scans `name usage` lines: the line named `cpu` gives the overall usage
/// (the last one wins), every other name that starts with `cpu` adds a core.
pub open spec fn cpu_scan(ls: Seq<Seq<char>>) -> (Seq<char>, Seq<Seq<char>>)
    decreases ls.len(),
{
    if ls.len() == 0 {
        (Seq::empty(), Seq::empty())
    } else {
        let prev = cpu_scan(ls.drop_last());
        let t = tokens(ls.last());
        let name = field_or_empty(t, 0);
        let usage = field_or_empty(t, 1);
        if name == "cpu"@ {
            (usage, prev.1)
        } else if starts_with(name, "cpu"@) {
            (prev.0, prev.1.push(usage))
        } else {
            prev
        }
    }
}

/// Overall and per-core usage texts; without per-core lines, every one of the
/// `expected` cores gets the overall figure.  A missing figure is empty text.
pub open spec fn cpu_usage(section: Seq<char>, expected: nat) -> (Seq<char>, Seq<Seq<char>>) {
    let (total, cores) = cpu_scan(lines(section));
    if cores.len() == 0 && expected > 0 {
        (total, Seq::new(expected, |i: int| total))
    } else {
        (total, cores)
    }
}

/// `cpu_usage(s[lo..hi], expected)`.
pub fn parse_cpu_usage_in(s: &[char], lo: usize, hi: usize, expected: usize) -> (r: (
    String,
    Vec<String>,
))
    requires
        lo <= hi <= s@.len(),
    ensures
        r.0@ == cpu_usage(s@.subrange(lo as int, hi as int), expected as nat).0,
        strs(r.1@) == cpu_usage(s@.subrange(lo as int, hi as int), expected as nat).1,
{
    let ls = lines_in(s, lo, hi);
    let ghost lv = lines(s@.subrange(lo as int, hi as int));
    let cpu = chars_of("cpu");
    let mut total = string_from_chars(&[]);
    let mut cores: Vec<String> = Vec::new();
    let mut k: usize = 0;
    while k < ls.len()
        invariant
            k <= ls@.len(),
            lo <= hi <= s@.len(),
            cpu@ == "cpu"@,
            lv == lines(s@.subrange(lo as int, hi as int)),
            lv.len() == ls@.len(),
            spans(s@, ls@) == lv,
            spans_within(ls@, lo as int, hi as int),
            total@ == cpu_scan(lv.take(k as int)).0,
            strs(cores@) == cpu_scan(lv.take(k as int)).1,
        decreases ls@.len() - k,
    {
        let (a, b) = ls[k];
        assert(lo <= ls@[k as int].0 <= ls@[k as int].1 <= hi);
        let ghost line = s@.subrange(a as int, b as int);
        assert(lv[k as int] == line);
        assert(lv.take(k + 1).drop_last() =~= lv.take(k as int));
        assert(lv.take(k + 1).last() == line);
        let t = tokens_in(s, a, b);
        let ghost tv = tokens(line);
        assert(tv.len() == t@.len());
        let (na, nb) = if t.len() > 0 {
            assert(a <= t@[0].0 <= t@[0].1 <= b);
            assert(tv[0] == s@.subrange(t@[0].0 as int, t@[0].1 as int));
            t[0]
        } else {
            assert(s@.subrange(a as int, a as int) =~= Seq::<char>::empty());
            (a, a)
        };
        assert(s@.subrange(na as int, nb as int) == field_or_empty(tv, 0));
        let usage = if t.len() > 1 {
            assert(a <= t@[1].0 <= t@[1].1 <= b);
            assert(tv[1] == s@.subrange(t@[1].0 as int, t@[1].1 as int));
            string_of_range(s, t[1].0, t[1].1)
        } else {
            string_from_chars(&[])
        };
        assert(usage@ == field_or_empty(tv, 1));
        if range_eq_chars(s, na, nb, cpu.as_slice()) {
            total = usage;
        } else if starts_with_in(s, na, nb, cpu.as_slice()) {
            let ghost old_c = cores@;
            cores.push(usage);
            assert(strs(cores@) =~= strs(old_c).push(usage@));
        }
        k = k + 1;
    }
    assert(lv.take(k as int) =~= lv);
    if cores.len() == 0 && expected > 0 {
        let mut i: usize = 0;
        while i < expected
            invariant
                i <= expected,
                forall|m: int| 0 <= m < cores@.len() ==> #[trigger] cores@[m]@ == total@,
                cores@.len() == i,
            decreases expected - i,
        {
            cores.push(total.clone());
            i = i + 1;
        }
        assert(strs(cores@) =~= Seq::new(expected as nat, |m: int| total@));
    }
    (total, cores)
}

fn range_eq_chars(s: &[char], lo: usize, hi: usize, p: &[char]) -> (b: bool)
    requires
        lo <= hi <= s@.len(),
    ensures
        b == (s@.subrange(lo as int, hi as int) == p@),
{
    crate::text::range_eq(s, lo, hi, p)
}

/// The overall and per-core CPU usage texts of the `CPU_USAGE` section.
pub fn parse_cpu_usage(section: &str, expected_cores: usize) -> (r: (String, Vec<String>))
    ensures
        r.0@ == cpu_usage(section@, expected_cores as nat).0,
        strs(r.1@) == cpu_usage(section@, expected_cores as nat).1,
{
    let s = chars_of(section);
    assert(s@.subrange(0, s@.len() as int) =~= s@);
    parse_cpu_usage_in(s.as_slice(), 0, s.len(), expected_cores)
}

// ---------------------------------------------------------------------------
// Disks
// ---------------------------------------------------------------------------

/// One mounted block device: `device fs_type size used mount` from `df`; the
/// read and write rates of all disks are reported on the first line only.
pub struct DiskPartition {
    pub mount: String,
    pub fs_type: String,
    pub total: u64,
    pub used: u64,
    pub read_rate: u64,
    pub write_rate: u64,
}

pub struct DiskRow {
    pub mount: Seq<char>,
    pub fs_type: Seq<char>,
    pub total: u64,
    pub used: u64,
    pub read_rate: u64,
    pub write_rate: u64,
}

impl View for DiskPartition {
    type V = DiskRow;

    open spec fn view(&self) -> DiskRow {
        DiskRow {
            mount: self.mount@,
            fs_type: self.fs_type@,
            total: self.total,
            used: self.used,
            read_rate: self.read_rate,
            write_rate: self.write_rate,
        }
    }
}

pub open spec fn views_of_disks(v: Seq<DiskPartition>) -> Seq<DiskRow> {
    v.map_values(|p: DiskPartition| p@)
}

/// The partition that a line describes, when it has at least five fields;
/// `first` tells whether it is the first line of the section.
pub open spec fn disk_row(line: Seq<char>, first: bool, read: u64, write: u64) -> Option<DiskRow> {
    let t = tokens(line);
    if t.len() >= 5 {
        Some(
            DiskRow {
                mount: t[4],
                fs_type: t[1],
                total: u64_or(t[2], 0),
                used: u64_or(t[3], 0),
                read_rate: if first {
                    read
                } else {
                    0
                },
                write_rate: if first {
                    write
                } else {
                    0
                },
            },
        )
    } else {
        None
    }
}

pub open spec fn disk_rows(ls: Seq<Seq<char>>, read: u64, write: u64) -> Seq<DiskRow>
    decreases ls.len(),
{
    if ls.len() == 0 {
        Seq::empty()
    } else {
        match disk_row(ls.last(), ls.len() == 1, read, write) {
            Some(d) => disk_rows(ls.drop_last(), read, write).push(d),
            None => disk_rows(ls.drop_last(), read, write),
        }
    }
}

fn disk_in(s: &[char], a: usize, b: usize, first: bool, read: u64, write: u64) -> (r: Option<
    DiskPartition,
>)
    requires
        a <= b <= s@.len(),
    ensures
        match r {
            Some(p) => disk_row(s@.subrange(a as int, b as int), first, read, write) == Some(p@),
            None => disk_row(s@.subrange(a as int, b as int), first, read, write) is None,
        },
{
    let ghost line = s@.subrange(a as int, b as int);
    let t = tokens_in(s, a, b);
    let ghost tv = tokens(line);
    assert(tv.len() == t@.len());
    if t.len() < 5 {
        return None;
    }
    assert(a <= t@[1].0 <= t@[1].1 <= b);
    assert(a <= t@[2].0 <= t@[2].1 <= b);
    assert(a <= t@[3].0 <= t@[3].1 <= b);
    assert(a <= t@[4].0 <= t@[4].1 <= b);
    assert(tv[1] == s@.subrange(t@[1].0 as int, t@[1].1 as int));
    assert(tv[2] == s@.subrange(t@[2].0 as int, t@[2].1 as int));
    assert(tv[3] == s@.subrange(t@[3].0 as int, t@[3].1 as int));
    assert(tv[4] == s@.subrange(t@[4].0 as int, t@[4].1 as int));
    let p = DiskPartition {
        mount: string_of_range(s, t[4].0, t[4].1),
        fs_type: string_of_range(s, t[1].0, t[1].1),
        total: parse_u64_or(s, t[2].0, t[2].1, 0),
        used: parse_u64_or(s, t[3].0, t[3].1, 0),
        read_rate: if first {
            read
        } else {
            0
        },
        write_rate: if first {
            write
        } else {
            0
        },
    };
    Some(p)
}

/// The partitions described by the lines of `s[lo..hi]`.
pub fn parse_disks_in(s: &[char], lo: usize, hi: usize, read: u64, write: u64) -> (r: Vec<
    DiskPartition,
>)
    requires
        lo <= hi <= s@.len(),
    ensures
        views_of_disks(r@) == disk_rows(lines(s@.subrange(lo as int, hi as int)), read, write),
{
    let ls = lines_in(s, lo, hi);
    let ghost lv = lines(s@.subrange(lo as int, hi as int));
    let mut r: Vec<DiskPartition> = Vec::new();
    let mut k: usize = 0;
    while k < ls.len()
        invariant
            k <= ls@.len(),
            lo <= hi <= s@.len(),
            lv == lines(s@.subrange(lo as int, hi as int)),
            lv.len() == ls@.len(),
            spans(s@, ls@) == lv,
            spans_within(ls@, lo as int, hi as int),
            views_of_disks(r@) == disk_rows(lv.take(k as int), read, write),
        decreases ls@.len() - k,
    {
        let (a, b) = ls[k];
        assert(lo <= ls@[k as int].0 <= ls@[k as int].1 <= hi);
        assert(lv[k as int] == s@.subrange(a as int, b as int));
        assert(lv.take(k + 1).drop_last() =~= lv.take(k as int));
        assert(lv.take(k + 1).last() == lv[k as int]);
        assert(lv.take(k + 1).len() == k + 1);
        let ghost old_r = r@;
        match disk_in(s, a, b, k == 0, read, write) {
            Some(p) => {
                r.push(p);
                assert(views_of_disks(r@) =~= views_of_disks(old_r).push(p@));
            },
            None => {},
        }
        k = k + 1;
    }
    assert(lv.take(k as int) =~= lv);
    r
}

/// The numbers among the texts, in order.
pub open spec fn parsed_u64s(t: Seq<Seq<char>>) -> Seq<u64>
    decreases t.len(),
{
    if t.len() == 0 {
        Seq::empty()
    } else {
        match parse_unsigned(t.last(), u64::MAX as nat) {
            Some(v) => parsed_u64s(t.drop_last()).push(v as u64),
            None => parsed_u64s(t.drop_last()),
        }
    }
}

/// The `i`-th number, or 0.
pub open spec fn nth_or_zero(v: Seq<u64>, i: int) -> u64 {
    if 0 <= i < v.len() {
        v[i]
    } else {
        0
    }
}

/// The first two numbers among the whitespace-separated fields of `s[lo..hi]`.
fn disk_rates_in(s: &[char], lo: usize, hi: usize) -> (r: (u64, u64))
    requires
        lo <= hi <= s@.len(),
    ensures
        r.0 == nth_or_zero(parsed_u64s(tokens(s@.subrange(lo as int, hi as int))), 0),
        r.1 == nth_or_zero(parsed_u64s(tokens(s@.subrange(lo as int, hi as int))), 1),
{
    let t = tokens_in(s, lo, hi);
    let ghost tv = tokens(s@.subrange(lo as int, hi as int));
    let mut nums: Vec<u64> = Vec::new();
    let mut k: usize = 0;
    while k < t.len()
        invariant
            k <= t@.len(),
            lo <= hi <= s@.len(),
            tv == tokens(s@.subrange(lo as int, hi as int)),
            tv.len() == t@.len(),
            spans(s@, t@) == tv,
            spans_within(t@, lo as int, hi as int),
            nums@ == parsed_u64s(tv.take(k as int)),
        decreases t@.len() - k,
    {
        let (a, b) = t[k];
        assert(lo <= t@[k as int].0 <= t@[k as int].1 <= hi);
        assert(tv[k as int] == s@.subrange(a as int, b as int));
        assert(tv.take(k + 1).drop_last() =~= tv.take(k as int));
        assert(tv.take(k + 1).last() == tv[k as int]);
        match parse_unsigned_in(s, a, b, u64::MAX) {
            Some(v) => {
                nums.push(v);
            },
            None => {},
        }
        k = k + 1;
    }
    assert(tv.take(k as int) =~= tv);
    let r0 = if nums.len() > 0 {
        nums[0]
    } else {
        0
    };
    let r1 = if nums.len() > 1 {
        nums[1]
    } else {
        0
    };
    (r0, r1)
}

// ---------------------------------------------------------------------------
// GPU
// ---------------------------------------------------------------------------

/// The first GPU reported by `nvidia-smi`:
/// `name, utilization, temperature, memory.total, memory.used, power.draw`;
/// memory is reported in MiB and kept in bytes.
pub struct GpuData {
    pub name: String,
    pub utilization: String,
    pub temperature: String,
    pub memory_total: u64,
    pub memory_used: u64,
    pub power: String,
}

pub struct GpuRow {
    pub name: Seq<char>,
    pub utilization: Seq<char>,
    pub temperature: Seq<char>,
    pub memory_total: int,
    pub memory_used: int,
    pub power: Seq<char>,
}

impl View for GpuData {
    type V = GpuRow;

    open spec fn view(&self) -> GpuRow {
        GpuRow {
            name: self.name@,
            utilization: self.utilization@,
            temperature: self.temperature@,
            memory_total: self.memory_total as int,
            memory_used: self.memory_used as int,
            power: self.power@,
        }
    }
}

/// The comma-separated, trimmed fields of the GPU section, when there are at
/// least six and the section is neither empty nor `none`.
pub open spec fn gpu_fields(sec: Seq<char>) -> Option<Seq<Seq<char>>> {
    if sec != "none"@ && sec.len() > 0 {
        let ps = split_char(sec, ',').map_values(|x: Seq<char>| trim(x));
        if ps.len() >= 6 {
            Some(ps)
        } else {
            None
        }
    } else {
        None
    }
}

pub open spec fn mib(t: Seq<char>) -> int {
    u64_or(t, 0) * 1048576
}

pub open spec fn gpu_row(sec: Seq<char>) -> Option<GpuRow> {
    match gpu_fields(sec) {
        Some(ps) => Some(
            GpuRow {
                name: ps[0],
                utilization: ps[1],
                temperature: ps[2],
                memory_total: mib(ps[3]),
                memory_used: mib(ps[4]),
                power: ps[5],
            },
        ),
        None => None,
    }
}

/// The GPU memory figures fit in a `u64` once given in bytes.
pub open spec fn gpu_fits(sec: Seq<char>) -> bool {
    match gpu_fields(sec) {
        Some(ps) => mib(ps[3]) <= u64::MAX && mib(ps[4]) <= u64::MAX,
        None => true,
    }
}

/// The trimmed ranges of the comma-separated pieces of `s[lo..hi]`.
fn trimmed_pieces(s: &[char], lo: usize, hi: usize) -> (r: Vec<(usize, usize)>)
    requires
        lo <= hi <= s@.len(),
    ensures
        spans(s@, r@) == split_char(s@.subrange(lo as int, hi as int), ',').map_values(
            |x: Seq<char>| trim(x),
        ),
        spans_within(r@, lo as int, hi as int),
{
    let ps = split_char_in(s, lo, hi, ',');
    let ghost pv = split_char(s@.subrange(lo as int, hi as int), ',');
    let mut r: Vec<(usize, usize)> = Vec::new();
    let mut k: usize = 0;
    while k < ps.len()
        invariant
            k <= ps@.len(),
            lo <= hi <= s@.len(),
            pv == split_char(s@.subrange(lo as int, hi as int), ','),
            spans(s@, ps@) == pv,
            pv.len() == ps@.len(),
            spans_within(ps@, lo as int, hi as int),
            spans_within(r@, lo as int, hi as int),
            spans(s@, r@) == pv.take(k as int).map_values(|x: Seq<char>| trim(x)),
        decreases ps@.len() - k,
    {
        let (a, b) = ps[k];
        assert(lo <= ps@[k as int].0 <= ps@[k as int].1 <= hi);
        assert(pv[k as int] == s@.subrange(a as int, b as int));
        let (x, y) = crate::text::trim_range(s, a, b);
        let ghost old_r = r@;
        r.push((x, y));
        assert(spans(s@, r@) =~= spans(s@, old_r).push(trim(pv[k as int])));
        assert(pv.take(k + 1).map_values(|x: Seq<char>| trim(x)) =~= pv.take(k as int).map_values(
            |x: Seq<char>| trim(x),
        ).push(trim(pv[k as int])));
        k = k + 1;
    }
    assert(pv.take(k as int) =~= pv);
    r
}

/// `gpu_row(s[lo..hi])`.
fn gpu_in(s: &[char], lo: usize, hi: usize) -> (r: Option<GpuData>)
    requires
        lo <= hi <= s@.len(),
        gpu_fits(s@.subrange(lo as int, hi as int)),
    ensures
        match r {
            Some(g) => gpu_row(s@.subrange(lo as int, hi as int)) == Some(g@),
            None => gpu_row(s@.subrange(lo as int, hi as int)) is None,
        },
{
    let ghost sec = s@.subrange(lo as int, hi as int);
    let none = chars_of("none");
    if hi == lo || crate::text::range_eq(s, lo, hi, none.as_slice()) {
        return None;
    }
    let ps = trimmed_pieces(s, lo, hi);
    let ghost pv = split_char(sec, ',').map_values(|x: Seq<char>| trim(x));
    assert(pv.len() == ps@.len());
    if ps.len() < 6 {
        return None;
    }
    assert(gpu_fields(sec) == Some(pv));
    assert forall|k: int| 0 <= k < 6 implies lo <= #[trigger] ps@[k].0 <= ps@[k].1 <= hi
        && pv[k] == s@.subrange(ps@[k].0 as int, ps@[k].1 as int) by {}
    let mt = parse_u64_or(s, ps[3].0, ps[3].1, 0);
    let mu = parse_u64_or(s, ps[4].0, ps[4].1, 0);
    assert(mt * 1048576 <= u64::MAX);
    assert(mu * 1048576 <= u64::MAX);
    let g = GpuData {
        name: string_of_range(s, ps[0].0, ps[0].1),
        utilization: string_of_range(s, ps[1].0, ps[1].1),
        temperature: string_of_range(s, ps[2].0, ps[2].1),
        memory_total: mt * 1048576,
        memory_used: mu * 1048576,
        power: string_of_range(s, ps[5].0, ps[5].1),
    };
    Some(g)
}

// ---------------------------------------------------------------------------
// Network
// ---------------------------------------------------------------------------

/// The non-empty texts, in order.
pub open spec fn nonempty_pieces(ps: Seq<Seq<char>>) -> Seq<Seq<char>>
    decreases ps.len(),
{
    if ps.len() == 0 {
        Seq::empty()
    } else if ps.last().len() > 0 {
        nonempty_pieces(ps.drop_last()).push(ps.last())
    } else {
        nonempty_pieces(ps.drop_last())
    }
}

/// The `i`-th field read as a `u64`, or 0.
pub open spec fn field_u64(t: Seq<Seq<char>>, i: int) -> u64 {
    if 0 <= i < t.len() {
        u64_or(t[i], 0)
    } else {
        0
    }
}

/// The interface names: the comma-separated fifth field, empty names dropped.
pub open spec fn net_interfaces(t: Seq<Seq<char>>) -> Seq<Seq<char>> {
    nonempty_pieces(split_char(field_or_empty(t, 4), ','))
}

fn field_u64_in(s: &[char], t: &Vec<(usize, usize)>, i: usize) -> (v: u64)
    requires
        spans_within(t@, 0, s@.len() as int),
    ensures
        v == field_u64(spans(s@, t@), i as int),
{
    if i < t.len() {
        assert(0 <= t@[i as int].0 <= t@[i as int].1 <= s@.len());
        parse_u64_or(s, t[i].0, t[i].1, 0)
    } else {
        0
    }
}

/// `net_interfaces` of the fields `t` of `s`.
fn interfaces_in(s: &[char], t: &Vec<(usize, usize)>) -> (r: Vec<String>)
    requires
        spans_within(t@, 0, s@.len() as int),
    ensures
        strs(r@) == net_interfaces(spans(s@, t@)),
{
    let ghost tv = spans(s@, t@);
    let (a, b) = if t.len() > 4 {
        assert(0 <= t@[4].0 <= t@[4].1 <= s@.len());
        t[4]
    } else {
        assert(s@.subrange(0, 0) =~= Seq::<char>::empty());
        (0, 0)
    };
    assert(s@.subrange(a as int, b as int) == field_or_empty(tv, 4));
    let ps = split_char_in(s, a, b, ',');
    let ghost pv = split_char(field_or_empty(tv, 4), ',');
    let mut r: Vec<String> = Vec::new();
    let mut k: usize = 0;
    while k < ps.len()
        invariant
            k <= ps@.len(),
            a <= b <= s@.len(),
            pv == split_char(s@.subrange(a as int, b as int), ','),
            spans(s@, ps@) == pv,
            pv.len() == ps@.len(),
            spans_within(ps@, a as int, b as int),
            strs(r@) == nonempty_pieces(pv.take(k as int)),
        decreases ps@.len() - k,
    {
        let (x, y) = ps[k];
        assert(a <= ps@[k as int].0 <= ps@[k as int].1 <= b);
        assert(pv[k as int] == s@.subrange(x as int, y as int));
        assert(pv.take(k + 1).drop_last() =~= pv.take(k as int));
        assert(pv.take(k + 1).last() == pv[k as int]);
        if y > x {
            let name = string_of_range(s, x, y);
            let ghost old_r = r@;
            r.push(name);
            assert(strs(r@) =~= strs(old_r).push(name@));
        }
        k = k + 1;
    }
    assert(pv.take(k as int) =~= pv);
    r
}

// ---------------------------------------------------------------------------
// The whole report
// ---------------------------------------------------------------------------

/// Everything the monitor report says about the host.  CPU usage, load
/// averages, GPU readings and per-process shares are the decimal text printed
/// by the host (an empty text where the report has none).
pub struct MonitorData {
    pub cpu_usage: String,
    pub cpu_cores: Vec<String>,
    pub mem_total: u64,
    pub mem_used: u64,
    pub mem_cached: u64,
    pub swap_total: u64,
    pub swap_used: u64,
    pub net_rx: u64,
    pub net_tx: u64,
    pub net_rx_rate: u64,
    pub net_tx_rate: u64,
    pub net_interfaces: Vec<String>,
    pub disk_partitions: Vec<DiskPartition>,
    pub gpu: Option<GpuData>,
    pub uptime: u64,
    pub hostname: String,
    pub os_info: String,
    pub load_avg: Vec<String>,
    pub top_cpu_processes: Vec<ProcessInfo>,
    pub top_mem_processes: Vec<ProcessInfo>,
}

/// The part of the output before the first `===END===`.
pub open spec fn monitor_body(output: Seq<char>) -> Seq<char> {
    match find(output, "===END==="@) {
        Some(i) => output.take(i),
        None => output,
    }
}

/// A figure of the memory section, in kB.
pub open spec fn mem_kb(d: Seq<char>, key: Seq<char>) -> u64 {
    mem_value(section_text(d, "MEMORY"@), key)
}

/// Buffers, page cache and reclaimable slab, in kB.
pub open spec fn buff_cache_kb(d: Seq<char>) -> int {
    mem_kb(d, "Buffers"@) + mem_kb(d, "Cached"@) + mem_kb(d, "SReclaimable"@)
}

pub open spec fn saturating_sub(a: int, b: int) -> int {
    if a > b {
        a - b
    } else {
        0
    }
}

/// Memory in use, in kB: total minus available, or, when the host does not
/// report `MemAvailable`, total minus free, buffers and cache.
pub open spec fn mem_used_kb(d: Seq<char>) -> int {
    if mem_kb(d, "MemAvailable"@) > 0 {
        saturating_sub(mem_kb(d, "MemTotal"@) as int, mem_kb(d, "MemAvailable"@) as int)
    } else {
        saturating_sub(mem_kb(d, "MemTotal"@) as int, mem_kb(d, "MemFree"@) + buff_cache_kb(d))
    }
}

/// The figures of the report stay within `u64` through the arithmetic that
/// turns them into bytes, and the free swap does not exceed the total swap.
pub open spec fn monitor_fits(output: Seq<char>) -> bool {
    let d = monitor_body(output);
    &&& buff_cache_kb(d) <= u64::MAX
    &&& (mem_kb(d, "MemAvailable"@) == 0 ==> mem_kb(d, "MemFree"@) + buff_cache_kb(d)
        <= u64::MAX)
    &&& mem_kb(d, "MemTotal"@) * 1024 <= u64::MAX
    &&& buff_cache_kb(d) * 1024 <= u64::MAX
    &&& mem_kb(d, "SwapTotal"@) * 1024 <= u64::MAX
    &&& mem_kb(d, "SwapFree"@) <= mem_kb(d, "SwapTotal"@)
    &&& gpu_fits(section_text(d, "GPU"@))
}

/// The first three fields (or fewer).
pub open spec fn first_three(t: Seq<Seq<char>>) -> Seq<Seq<char>> {
    if t.len() <= 3 {
        t
    } else {
        t.take(3)
    }
}

/// The number of cores the report gives, or 1.
pub open spec fn core_count(d: Seq<char>) -> nat {
    match parse_unsigned(section_text(d, "CPU"@), usize::MAX as nat) {
        Some(v) => v,
        None => 1,
    }
}

/// The range of `section_text(s[0..hi], name)`.
fn section_or_empty(s: &[char], hi: usize, name: &str) -> (r: (usize, usize))
    requires
        hi <= s@.len(),
    ensures
        r.0 <= r.1 <= hi,
        s@.subrange(r.0 as int, r.1 as int) == section_text(s@.take(hi as int), name@),
{
    match section_range(s, hi, name) {
        Some(r) => r,
        None => {
            assert(s@.subrange(0, 0) =~= Seq::<char>::empty());
            (0, 0)
        },
    }
}

/// The memory figures, in kB: total, free, available, buffers+cache, swap
/// total, swap free.
fn memory_figures(s: &[char], hi: usize) -> (r: (u64, u64, u64, u64, u64, u64))
    requires
        hi <= s@.len(),
        buff_cache_kb(s@.take(hi as int)) <= u64::MAX,
    ensures
        r.0 == mem_kb(s@.take(hi as int), "MemTotal"@),
        r.1 == mem_kb(s@.take(hi as int), "MemFree"@),
        r.2 == mem_kb(s@.take(hi as int), "MemAvailable"@),
        r.3 == buff_cache_kb(s@.take(hi as int)),
        r.4 == mem_kb(s@.take(hi as int), "SwapTotal"@),
        r.5 == mem_kb(s@.take(hi as int), "SwapFree"@),
{
    let (a, b) = section_or_empty(s, hi, "MEMORY");
    let total = mem_value_in(s, a, b, chars_of("MemTotal").as_slice());
    let free = mem_value_in(s, a, b, chars_of("MemFree").as_slice());
    let available = mem_value_in(s, a, b, chars_of("MemAvailable").as_slice());
    let buffers = mem_value_in(s, a, b, chars_of("Buffers").as_slice());
    let cached = mem_value_in(s, a, b, chars_of("Cached").as_slice());
    let reclaimable = mem_value_in(s, a, b, chars_of("SReclaimable").as_slice());
    let swap_total = mem_value_in(s, a, b, chars_of("SwapTotal").as_slice());
    let swap_free = mem_value_in(s, a, b, chars_of("SwapFree").as_slice());
    (total, free, available, buffers + cached + reclaimable, swap_total, swap_free)
}

/// The end of the part of `s` before the first `===END===`.
fn body_end(s: &[char]) -> (e: usize)
    ensures
        e <= s@.len(),
        s@.take(e as int) == monitor_body(s@),
{
    let end = chars_of("===END===");
    assert(s@.subrange(0, s@.len() as int) =~= s@);
    match find_in(s, 0, s.len(), end.as_slice()) {
        Some(k) => {
            assert(s@.take(k as int) =~= s@.take(k as int));
            k
        },
        None => {
            assert(s@.take(s@.len() as int) =~= s@);
            s.len()
        },
    }
}

/// Whether the report's figures fit the arithmetic of `parse_monitor_output`.
pub fn monitor_output_fits(output: &str) -> (b: bool)
    ensures
        b == monitor_fits(output@),
{
    let s = chars_of(output);
    let hi = body_end(s.as_slice());
    let ghost d = s@.take(hi as int);
    let (ma, mb) = section_or_empty(s.as_slice(), hi, "MEMORY");
    let buffers = mem_value_in(s.as_slice(), ma, mb, chars_of("Buffers").as_slice());
    let cached = mem_value_in(s.as_slice(), ma, mb, chars_of("Cached").as_slice());
    let reclaimable = mem_value_in(s.as_slice(), ma, mb, chars_of("SReclaimable").as_slice());
    if buffers as u128 + cached as u128 + reclaimable as u128 > u64::MAX as u128 {
        return false;
    }
    let (total, free, available, buff_cache, swap_total, swap_free) = memory_figures(
        s.as_slice(),
        hi,
    );
    if available == 0 && free as u128 + buff_cache as u128 > u64::MAX as u128 {
        return false;
    }
    if total as u128 * 1024 > u64::MAX as u128 || buff_cache as u128 * 1024 > u64::MAX as u128
        || swap_total as u128 * 1024 > u64::MAX as u128 || swap_free > swap_total {
        return false;
    }
    let (ga, gb) = section_or_empty(s.as_slice(), hi, "GPU");
    let ghost sec = s@.subrange(ga as int, gb as int);
    let none = chars_of("none");
    if gb == ga || crate::text::range_eq(s.as_slice(), ga, gb, none.as_slice()) {
        return true;
    }
    let ps = trimmed_pieces(s.as_slice(), ga, gb);
    let ghost pv = split_char(sec, ',').map_values(|x: Seq<char>| trim(x));
    assert(pv.len() == ps@.len());
    if ps.len() < 6 {
        return true;
    }
    assert(gpu_fields(sec) == Some(pv));
    assert(ga <= ps@[3].0 <= ps@[3].1 <= gb);
    assert(ga <= ps@[4].0 <= ps@[4].1 <= gb);
    assert(pv[3] == s@.subrange(ps@[3].0 as int, ps@[3].1 as int));
    assert(pv[4] == s@.subrange(ps@[4].0 as int, ps@[4].1 as int));
    let mt = parse_u64_or(s.as_slice(), ps[3].0, ps[3].1, 0);
    let mu = parse_u64_or(s.as_slice(), ps[4].0, ps[4].1, 0);
    mt as u128 * 1048576 <= u64::MAX as u128 && mu as u128 * 1048576 <= u64::MAX as u128
}

/// `m` is what the monitor report `output` says.
pub open spec fn describes(output: Seq<char>, m: MonitorData) -> bool {
    let d = monitor_body(output);
    let nt = tokens(section_text(d, "NETWORK"@));
    let rates = parsed_u64s(tokens(section_text(d, "DISKSTATS"@)));
    let cpu = cpu_usage(section_text(d, "CPU_USAGE"@), core_count(d));
    &&& m.hostname@ == section_text(d, "HOSTNAME"@)
    &&& m.os_info@ == section_text(d, "OS"@)
    &&& m.uptime == u64_or(section_text(d, "UPTIME"@), 0)
    &&& strs(m.load_avg@) == first_three(tokens(section_text(d, "LOAD"@)))
    &&& m.cpu_usage@ == cpu.0
    &&& strs(m.cpu_cores@) == cpu.1
    &&& m.mem_total == mem_kb(d, "MemTotal"@) * 1024
    &&& m.mem_used == mem_used_kb(d) * 1024
    &&& m.mem_cached == buff_cache_kb(d) * 1024
    &&& m.swap_total == mem_kb(d, "SwapTotal"@) * 1024
    &&& m.swap_used == (mem_kb(d, "SwapTotal"@) - mem_kb(d, "SwapFree"@)) * 1024
    &&& m.net_rx == field_u64(nt, 0)
    &&& m.net_tx == field_u64(nt, 1)
    &&& m.net_rx_rate == field_u64(nt, 2)
    &&& m.net_tx_rate == field_u64(nt, 3)
    &&& strs(m.net_interfaces@) == net_interfaces(nt)
    &&& views_of_disks(m.disk_partitions@) == disk_rows(
        lines(section_text(d, "DISK"@)),
        nth_or_zero(rates, 0),
        nth_or_zero(rates, 1),
    )
    &&& match m.gpu {
        Some(g) => gpu_row(section_text(d, "GPU"@)) == Some(g@),
        None => gpu_row(section_text(d, "GPU"@)) is None,
    }
    &&& views_of_processes(m.top_cpu_processes@) == process_rows(
        lines(section_text(d, "TOP_CPU"@)),
    )
    &&& views_of_processes(m.top_mem_processes@) == process_rows(
        lines(section_text(d, "TOP_MEM"@)),
    )
}

/// The memory and swap in use never exceed the totals.
pub proof fn monitor_used_within_total(output: Seq<char>, m: MonitorData)
    requires
        monitor_fits(output),
        describes(output, m),
    ensures
        m.mem_used <= m.mem_total,
        m.swap_used <= m.swap_total,
{
    let d = monitor_body(output);
    assert(mem_used_kb(d) <= mem_kb(d, "MemTotal"@));
}

/// The GPU figures come in the order of the `nvidia-smi` query: when the
/// GPU section has at least six comma-separated fields, the GPU's name,
/// utilization, temperature and power draw are the first, second, third and
/// sixth of them, trimmed, and its memory figures are the fourth and fifth,
/// read as MiB.
pub proof fn monitor_gpu_in_query_order(output: Seq<char>, m: MonitorData)
    requires
        describes(output, m),
        section_text(monitor_body(output), "GPU"@) != "none"@,
        section_text(monitor_body(output), "GPU"@).len() > 0,
        split_char(section_text(monitor_body(output), "GPU"@), ',').len() >= 6,
    ensures
        m.gpu is Some,
        m.gpu->0.name@ == trim(split_char(section_text(monitor_body(output), "GPU"@), ',')[0]),
        m.gpu->0.utilization@ == trim(
            split_char(section_text(monitor_body(output), "GPU"@), ',')[1],
        ),
        m.gpu->0.temperature@ == trim(
            split_char(section_text(monitor_body(output), "GPU"@), ',')[2],
        ),
        m.gpu->0.memory_total == u64_or(
            trim(split_char(section_text(monitor_body(output), "GPU"@), ',')[3]),
            0,
        ) * 1048576,
        m.gpu->0.memory_used == u64_or(
            trim(split_char(section_text(monitor_body(output), "GPU"@), ',')[4]),
            0,
        ) * 1048576,
        m.gpu->0.power@ == trim(split_char(section_text(monitor_body(output), "GPU"@), ',')[5]),
{
    let sec = section_text(monitor_body(output), "GPU"@);
    let ps = split_char(sec, ',').map_values(|x: Seq<char>| trim(x));
    assert(gpu_fields(sec) == Some(ps));
}

/// The network figures come in the order the script prints them: bytes
/// received, bytes sent, receive rate and send rate, the first four
/// whitespace-separated fields of the network section.
pub proof fn monitor_network_in_script_order(output: Seq<char>, m: MonitorData)
    requires
        describes(output, m),
        tokens(section_text(monitor_body(output), "NETWORK"@)).len() >= 4,
    ensures
        m.net_rx == u64_or(tokens(section_text(monitor_body(output), "NETWORK"@))[0], 0),
        m.net_tx == u64_or(tokens(section_text(monitor_body(output), "NETWORK"@))[1], 0),
        m.net_rx_rate == u64_or(tokens(section_text(monitor_body(output), "NETWORK"@))[2], 0),
        m.net_tx_rate == u64_or(tokens(section_text(monitor_body(output), "NETWORK"@))[3], 0),
{
}

/// A `df` line of at least five fields gives a partition whose file system
/// type is the second field, whose size and use are the third and fourth,
/// and whose mount point is the fifth; the disk rates go to the first line
/// only.
pub proof fn disk_row_fields(line: Seq<char>, first: bool, read: u64, write: u64)
    requires
        tokens(line).len() >= 5,
    ensures
        disk_row(line, first, read, write) is Some,
        disk_row(line, first, read, write)->0.fs_type == tokens(line)[1],
        disk_row(line, first, read, write)->0.total == u64_or(tokens(line)[2], 0),
        disk_row(line, first, read, write)->0.used == u64_or(tokens(line)[3], 0),
        disk_row(line, first, read, write)->0.mount == tokens(line)[4],
        disk_row(line, first, read, write)->0.read_rate == (if first { read } else { 0 }),
        disk_row(line, first, read, write)->0.write_rate == (if first { write } else { 0 }),
{
}

/// A `ps` line with a numeric pid and at least three more fields gives a
/// process whose pid, CPU share, memory share and command are its first
/// four fields, in that order.
pub proof fn process_row_fields(line: Seq<char>)
    requires
        tokens(line).len() >= 4,
        parse_unsigned(tokens(line)[0], u32::MAX as nat) is Some,
    ensures
        process_row(line) is Some,
        process_row(line)->0.pid == parse_unsigned(tokens(line)[0], u32::MAX as nat)->0,
        process_row(line)->0.cpu == tokens(line)[1],
        process_row(line)->0.memory == tokens(line)[2],
        process_row(line)->0.command == tokens(line)[3],
{
}

/// Reads the report of the monitor script.  Callers check
/// `monitor_output_fits` first: the byte counts are computed in `u64`.
pub fn parse_monitor_output(output: &str) -> (r: Result<MonitorData, String>)
    requires
        monitor_fits(output@),
    ensures
        r is Ok,
        r matches Ok(m) ==> describes(output@, m),
{
    let chars = chars_of(output);
    let s = chars.as_slice();
    let hi = body_end(s);
    let ghost d = s@.take(hi as int);
    assert(d == monitor_body(output@));

    let (a, b) = section_or_empty(s, hi, "HOSTNAME");
    let hostname = string_of_range(s, a, b);
    let (a, b) = section_or_empty(s, hi, "OS");
    let os_info = string_of_range(s, a, b);
    let (a, b) = section_or_empty(s, hi, "UPTIME");
    let uptime = parse_u64_or(s, a, b, 0);

    let (a, b) = section_or_empty(s, hi, "LOAD");
    let lt = tokens_in(s, a, b);
    let mut first: Vec<(usize, usize)> = Vec::new();
    let mut k: usize = 0;
    while k < lt.len() && k < 3
        invariant
            k <= lt@.len(),
            k <= 3,
            first@ == lt@.take(k as int),
        decreases 3 - k,
    {
        first.push(lt[k]);
        k = k + 1;
        assert(first@ =~= lt@.take(k as int));
    }
    assert(spans_within(first@, 0, s@.len() as int)) by {
        assert forall|m: int| 0 <= m < first@.len() implies 0 <= #[trigger] first@[m].0
            <= first@[m].1 <= s@.len() by {
            assert(first@[m] == lt@[m]);
        }
    }
    let load_avg = strings_of_spans(s, &first);
    assert(spans(s@, first@) =~= first_three(tokens(section_text(d, "LOAD"@))));

    let (a, b) = section_or_empty(s, hi, "CPU");
    let cores_count: usize = match parse_unsigned_in(s, a, b, usize::MAX as u64) {
        Some(v) => v as usize,
        None => 1,
    };
    assert(cores_count as nat == core_count(d));
    let (a, b) = section_or_empty(s, hi, "CPU_USAGE");
    let (cpu_usage, cpu_cores) = parse_cpu_usage_in(s, a, b, cores_count);

    let (mem_total, mem_free, mem_available, mem_buff_cache, swap_total, swap_free) =
        memory_figures(s, hi);
    let mem_used = if mem_available > 0 {
        mem_total.saturating_sub(mem_available)
    } else {
        mem_total.saturating_sub(mem_free + mem_buff_cache)
    };

    let (a, b) = section_or_empty(s, hi, "NETWORK");
    let nt = tokens_in(s, a, b);
    proof {
        crate::text::lemma_spans_widen(nt@, a as int, b as int, 0, s@.len() as int);
    }
    let net_rx = field_u64_in(s, &nt, 0);
    let net_tx = field_u64_in(s, &nt, 1);
    let net_rx_rate = field_u64_in(s, &nt, 2);
    let net_tx_rate = field_u64_in(s, &nt, 3);
    let net_interfaces = interfaces_in(s, &nt);

    let (a, b) = section_or_empty(s, hi, "DISKSTATS");
    let (disk_read_rate, disk_write_rate) = disk_rates_in(s, a, b);
    let (a, b) = section_or_empty(s, hi, "DISK");
    let disk_partitions = parse_disks_in(s, a, b, disk_read_rate, disk_write_rate);

    let (a, b) = section_or_empty(s, hi, "GPU");
    let gpu = gpu_in(s, a, b);

    let (a, b) = section_or_empty(s, hi, "TOP_CPU");
    let top_cpu_processes = parse_processes_in(s, a, b);
    let (a, b) = section_or_empty(s, hi, "TOP_MEM");
    let top_mem_processes = parse_processes_in(s, a, b);

    let m = MonitorData {
        cpu_usage,
        cpu_cores,
        mem_total: mem_total * 1024,
        mem_used: mem_used * 1024,
        mem_cached: mem_buff_cache * 1024,
        swap_total: swap_total * 1024,
        swap_used: (swap_total - swap_free) * 1024,
        net_rx,
        net_tx,
        net_rx_rate,
        net_tx_rate,
        net_interfaces,
        disk_partitions,
        gpu,
        uptime,
        hostname,
        os_info,
        load_avg,
        top_cpu_processes,
        top_mem_processes,
    };
    Ok(m)
}

} // verus!
