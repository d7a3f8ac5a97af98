//! Textual IP addresses, read as `IpAddr::from_str` of the standard library
//! reads them: an IPv4 address is four dot-separated decimal octets of one to
//! three digits without leading zeros; an IPv6 address is up to eight colon
//! separated groups of one to four hex digits, with at most one `::` standing
//! for one or more zero groups, and may end with an embedded IPv4 address.
//! The whole text must be consumed.
use vstd::prelude::*;

verus! {

/// An IP address: four octets, or eight 16-bit groups.
pub enum IpAddress {
    V4(Vec<u8>),
    V6(Vec<u16>),
}

pub enum IpValue {
    V4(Seq<u8>),
    V6(Seq<u16>),
}

impl View for IpAddress {
    type V = IpValue;

    open spec fn view(&self) -> IpValue {
        match self {
            IpAddress::V4(o) => IpValue::V4(o@),
            IpAddress::V6(g) => IpValue::V6(g@),
        }
    }
}

impl IpValue {
    /// Four octets for IPv4, eight groups for IPv6.
    pub open spec fn wf(self) -> bool {
        match self {
            IpValue::V4(o) => o.len() == 4,
            IpValue::V6(g) => g.len() == 8,
        }
    }
}

impl IpAddress {
    /// Four octets for IPv4, eight groups for IPv6.
    pub open spec fn wf(&self) -> bool {
        self@.wf()
    }
}

// ---------------------------------------------------------------------------
// Numbers
// ---------------------------------------------------------------------------

/// `char::to_digit(radix)` for radix 10 and 16.
pub open spec fn digit_in(c: char, radix: nat) -> Option<nat> {
    if '0' <= c && c <= '9' {
        Some((c as int - '0' as int) as nat)
    } else if radix == 16 && 'a' <= c && c <= 'f' {
        Some((c as int - 'a' as int + 10) as nat)
    } else if radix == 16 && 'A' <= c && c <= 'F' {
        Some((c as int - 'A' as int + 10) as nat)
    } else {
        None
    }
}

/// The number of consecutive digits from `pos`.
pub open spec fn run_len(s: Seq<char>, pos: int, radix: nat) -> nat
    decreases s.len() - pos,
{
    if 0 <= pos < s.len() && digit_in(s[pos], radix) is Some {
        1 + run_len(s, pos + 1, radix)
    } else {
        0
    }
}

/// The value of the `n` digits from `pos`.
pub open spec fn run_value(s: Seq<char>, pos: int, n: nat, radix: nat) -> nat
    decreases n,
{
    if n == 0 {
        0
    } else {
        run_value(s, pos, (n - 1) as nat, radix) * radix + digit_in(s[pos + n - 1], radix)->0
    }
}

/// A number at `pos`: all the consecutive digits, at most `max_digits` of
/// them, a value of at most `max_value`, and no leading zero unless allowed.
pub open spec fn read_number(
    s: Seq<char>,
    pos: int,
    radix: nat,
    max_digits: nat,
    allow_zero_prefix: bool,
    max_value: nat,
) -> Option<(nat, int)> {
    let n = run_len(s, pos, radix);
    if n == 0 || n > max_digits {
        None
    } else if run_value(s, pos, n, radix) > max_value {
        None
    } else if !allow_zero_prefix && s[pos] == '0' && n > 1 {
        None
    } else {
        Some((run_value(s, pos, n, radix), pos + n))
    }
}

fn digit_exec(c: char, radix: u32) -> (r: Option<u32>)
    requires
        radix == 10 || radix == 16,
    ensures
        match digit_in(c, radix as nat) {
            Some(v) => r == Some(v as u32),
            None => r is None,
        },
{
    if '0' <= c && c <= '9' {
        Some(c as u32 - '0' as u32)
    } else if radix == 16 && 'a' <= c && c <= 'f' {
        Some(c as u32 - 'a' as u32 + 10)
    } else if radix == 16 && 'A' <= c && c <= 'F' {
        Some(c as u32 - 'A' as u32 + 10)
    } else {
        None
    }
}

/// `radix` to the power `n`.
pub open spec fn pw(radix: nat, n: nat) -> nat
    decreases n,
{
    if n == 0 {
        1
    } else {
        pw(radix, (n - 1) as nat) * radix
    }
}

proof fn lemma_step_bound(a: nat, b: nat, d: nat, r: nat)
    requires
        a < b,
        d < r,
    ensures
        a * r + d < b * r,
{
    assert(a * r + d < b * r) by (nonlinear_arith)
        requires
            a < b,
            d < r,
    ;
}

proof fn lemma_run_value_bound(s: Seq<char>, pos: int, n: nat, radix: nat)
    requires
        radix == 10 || radix == 16,
        forall|k: int| pos <= k < pos + n ==> digit_in(#[trigger] s[k], radix) is Some,
    ensures
        run_value(s, pos, n, radix) < pw(radix, n),
    decreases n,
{
    if n > 0 {
        lemma_run_value_bound(s, pos, (n - 1) as nat, radix);
        assert(digit_in(s[pos + n - 1], radix)->0 < radix);
        lemma_step_bound(
            run_value(s, pos, (n - 1) as nat, radix),
            pw(radix, (n - 1) as nat),
            digit_in(s[pos + n - 1], radix)->0,
            radix,
        );
    }
}

/// `read_number` at `pos` with at most four digits.
fn read_number_exec(
    s: &[char],
    pos: usize,
    radix: u32,
    max_digits: usize,
    allow_zero_prefix: bool,
    max_value: u32,
) -> (r: Option<(u32, usize)>)
    requires
        radix == 10 || radix == 16,
        1 <= max_digits <= 4,
        pos <= s@.len(),
    ensures
        match read_number(
            s@,
            pos as int,
            radix as nat,
            max_digits as nat,
            allow_zero_prefix,
            max_value as nat,
        ) {
            Some((v, p)) => r matches Some((w, q)) && w == v && q == p,
            None => r is None,
        },
{
    let mut i = pos;
    let mut value: u32 = 0;
    loop
        invariant
            radix == 10 || radix == 16,
            1 <= max_digits <= 4,
            pos <= i <= s@.len(),
            i - pos <= max_digits,
            run_len(s@, pos as int, radix as nat) == (i - pos) + run_len(s@, i as int, radix as nat),
            value == run_value(s@, pos as int, (i - pos) as nat, radix as nat),
            value < 65536,
            forall|k: int| pos <= k < i ==> digit_in(#[trigger] s@[k], radix as nat) is Some,
        ensures
            pos <= i <= s@.len(),
            i - pos <= max_digits,
            run_len(s@, pos as int, radix as nat) == i - pos,
            value == run_value(s@, pos as int, (i - pos) as nat, radix as nat),
        decreases s@.len() - i,
    {
        if i >= s.len() {
            break;
        }
        let d = match digit_exec(s[i], radix) {
            Some(d) => d,
            None => {
                break;
            },
        };
        if i - pos == max_digits {
            assert(run_len(s@, pos as int, radix as nat) > max_digits);
            return None;
        }
        proof {
            let n = (i - pos) as nat;
            lemma_run_value_bound(s@, pos as int, n + 1, radix as nat);
            reveal_with_fuel(pw, 5);
            assert(pw(radix as nat, n + 1) <= 65536);
            assert(run_value(s@, pos as int, n + 1, radix as nat) == value * radix + d);
        }
        value = value * radix + d;
        i = i + 1;
    }
    let n = i - pos;
    if n == 0 {
        return None;
    }
    if value > max_value {
        return None;
    }
    if !allow_zero_prefix && s[pos] == '0' && n > 1 {
        return None;
    }
    Some((value, i))
}

// ---------------------------------------------------------------------------
// IPv4
// ---------------------------------------------------------------------------

/// A separator (when `index > 0`) followed by a decimal octet.
pub open spec fn read_octet(s: Seq<char>, pos: int, index: int) -> Option<(nat, int)> {
    if index > 0 {
        if 0 <= pos < s.len() && s[pos] == '.' {
            read_number(s, pos + 1, 10, 3, false, 255)
        } else {
            None
        }
    } else {
        read_number(s, pos, 10, 3, false, 255)
    }
}

/// Four dot-separated octets from `pos`.
pub open spec fn read_ipv4(s: Seq<char>, pos: int) -> Option<(Seq<u8>, int)> {
    match read_octet(s, pos, 0) {
        Some((a, p1)) => match read_octet(s, p1, 1) {
            Some((b, p2)) => match read_octet(s, p2, 2) {
                Some((c, p3)) => match read_octet(s, p3, 3) {
                    Some((d, p4)) => Some((seq![a as u8, b as u8, c as u8, d as u8], p4)),
                    None => None,
                },
                None => None,
            },
            None => None,
        },
        None => None,
    }
}

fn read_octet_exec(s: &[char], pos: usize, index: usize) -> (r: Option<(u8, usize)>)
    requires
        pos <= s@.len(),
    ensures
        match read_octet(s@, pos as int, index as int) {
            Some((v, p)) => r matches Some((w, q)) && w == v && q == p && p <= s@.len(),
            None => r is None,
        },
{
    let start = if index > 0 {
        if pos < s.len() && s[pos] == '.' {
            pos + 1
        } else {
            return None;
        }
    } else {
        pos
    };
    match read_number_exec(s, start, 10, 3, false, 255) {
        Some((v, p)) => {
            proof {
                lemma_run_len_bound(s@, start as int, 10);
            }
            Some((v as u8, p))
        },
        None => None,
    }
}

proof fn lemma_run_len_bound(s: Seq<char>, pos: int, radix: nat)
    requires
        0 <= pos <= s.len(),
    ensures
        pos + run_len(s, pos, radix) <= s.len(),
    decreases s.len() - pos,
{
    if pos < s.len() && digit_in(s[pos], radix) is Some {
        lemma_run_len_bound(s, pos + 1, radix);
    }
}

fn read_ipv4_exec(s: &[char], pos: usize) -> (r: Option<(Vec<u8>, usize)>)
    requires
        pos <= s@.len(),
    ensures
        match read_ipv4(s@, pos as int) {
            Some((o, p)) => r matches Some((w, q)) && w@ == o && q == p && p <= s@.len(),
            None => r is None,
        },
{
    let (a, p1) = match read_octet_exec(s, pos, 0) {
        Some(x) => x,
        None => {
            return None;
        },
    };
    let (b, p2) = match read_octet_exec(s, p1, 1) {
        Some(x) => x,
        None => {
            return None;
        },
    };
    let (c, p3) = match read_octet_exec(s, p2, 2) {
        Some(x) => x,
        None => {
            return None;
        },
    };
    let (d, p4) = match read_octet_exec(s, p3, 3) {
        Some(x) => x,
        None => {
            return None;
        },
    };
    let mut o: Vec<u8> = Vec::new();
    o.push(a);
    o.push(b);
    o.push(c);
    o.push(d);
    assert(o@ =~= seq![a, b, c, d]);
    Some((o, p4))
}

// ---------------------------------------------------------------------------
// IPv6
// ---------------------------------------------------------------------------

/// A separator (when `index > 0`) followed by something read by `read`.
pub open spec fn after_colon(s: Seq<char>, pos: int, index: int) -> Option<int> {
    if index > 0 {
        if 0 <= pos < s.len() && s[pos] == ':' {
            Some(pos + 1)
        } else {
            None
        }
    } else {
        Some(pos)
    }
}

/// A hex group of at most four digits, after a colon when `index > 0`.
pub open spec fn read_group(s: Seq<char>, pos: int, index: int) -> Option<(nat, int)> {
    match after_colon(s, pos, index) {
        Some(p) => read_number(s, p, 16, 4, true, 65535),
        None => None,
    }
}

/// An embedded IPv4 address, after a colon when `index > 0`.
pub open spec fn read_group_ipv4(s: Seq<char>, pos: int, index: int) -> Option<(Seq<u8>, int)> {
    match after_colon(s, pos, index) {
        Some(p) => read_ipv4(s, p),
        None => None,
    }
}

pub open spec fn be16(hi: u8, lo: u8) -> u16 {
    (hi as int * 256 + lo as int) as u16
}

/// Reads groups `i..limit` from `pos`: the groups read, where reading stopped,
/// and whether it ended with an embedded IPv4 address (two groups).
pub open spec fn read_groups(s: Seq<char>, pos: int, limit: int, i: int, acc: Seq<u16>) -> (
    Seq<u16>,
    int,
    bool,
)
    decreases limit - i,
{
    if i >= limit {
        (acc, pos, false)
    } else {
        let v4 = if i < limit - 1 {
            read_group_ipv4(s, pos, i)
        } else {
            None
        };
        match v4 {
            Some((o, p)) => (acc.push(be16(o[0], o[1])).push(be16(o[2], o[3])), p, true),
            None => match read_group(s, pos, i) {
                Some((g, p)) => read_groups(s, p, limit, i + 1, acc.push(g as u16)),
                None => (acc, pos, false),
            },
        }
    }
}

/// Eight groups from `pos`, with at most one `::`.
pub open spec fn read_ipv6(s: Seq<char>, pos: int) -> Option<(Seq<u16>, int)> {
    let (head, p1, v4) = read_groups(s, pos, 8, 0, Seq::empty());
    if head.len() == 8 {
        Some((head, p1))
    } else if v4 {
        None
    } else if 0 <= p1 && p1 + 1 < s.len() && s[p1] == ':' && s[p1 + 1] == ':' {
        let limit = 8 - (head.len() + 1);
        let (tail, p2, _) = read_groups(s, p1 + 2, limit, 0, Seq::empty());
        Some((head + Seq::new((8 - head.len() - tail.len()) as nat, |k: int| 0u16) + tail, p2))
    } else {
        None
    }
}

/// `IpAddr::from_str`: an IPv4 address, else an IPv6 address, using all of
/// the text.
pub open spec fn parse_ip(s: Seq<char>) -> Option<IpValue> {
    match read_ipv4(s, 0) {
        Some((o, p)) => if p == s.len() {
            Some(IpValue::V4(o))
        } else {
            None
        },
        None => match read_ipv6(s, 0) {
            Some((g, p)) => if p == s.len() {
                Some(IpValue::V6(g))
            } else {
                None
            },
            None => None,
        },
    }
}

/// Every address read has four octets or eight groups.
pub proof fn parse_ip_well_formed(s: Seq<char>)
    ensures
        parse_ip(s) matches Some(v) ==> v.wf(),
{
    lemma_read_groups_len(s, 0, 8, 0, Seq::empty());
    let (head, p1, v4) = read_groups(s, 0, 8, 0, Seq::empty());
    if head.len() < 8 && 0 <= p1 {
        lemma_read_groups_len(s, p1 + 2, 8 - (head.len() + 1), 0, Seq::empty());
    }
}

proof fn lemma_read_groups_len(s: Seq<char>, pos: int, limit: int, i: int, acc: Seq<u16>)
    requires
        0 <= i <= limit,
        acc.len() == i,
    ensures
        read_groups(s, pos, limit, i, acc).0.len() <= limit,
        read_groups(s, pos, limit, i, acc).0.len() >= i,
        read_groups(s, pos, limit, i, acc).0.take(i) == acc,
    decreases limit - i,
{
    if i < limit {
        let v4 = if i < limit - 1 {
            read_group_ipv4(s, pos, i)
        } else {
            None
        };
        match v4 {
            Some((o, p)) => {
                let r = acc.push(be16(o[0], o[1])).push(be16(o[2], o[3]));
                assert(r.take(i) =~= acc);
            },
            None => match read_group(s, pos, i) {
                Some((g, p)) => {
                    lemma_read_groups_len(s, p, limit, i + 1, acc.push(g as u16));
                    let r = read_groups(s, p, limit, i + 1, acc.push(g as u16)).0;
                    assert(r.take(i) =~= r.take(i + 1).take(i));
                    assert(acc.push(g as u16).take(i) =~= acc);
                },
                None => {
                    assert(acc.take(i) =~= acc);
                },
            },
        }
    } else {
        assert(acc.take(i) =~= acc);
    }
}

/// `read_groups(s, pos, limit, 0, [])`.
fn read_groups_exec(s: &[char], pos: usize, limit: usize) -> (r: (Vec<u16>, usize, bool))
    requires
        pos <= s@.len(),
        limit <= 8,
    ensures
        r.0@ == read_groups(s@, pos as int, limit as int, 0, Seq::empty()).0,
        r.1 == read_groups(s@, pos as int, limit as int, 0, Seq::empty()).1,
        r.2 == read_groups(s@, pos as int, limit as int, 0, Seq::empty()).2,
        r.1 <= s@.len(),
{
    let mut groups: Vec<u16> = Vec::new();
    let mut p = pos;
    let mut i: usize = 0;
    while i < limit
        invariant
            i <= limit <= 8,
            p <= s@.len(),
            groups@.len() == i,
            read_groups(s@, pos as int, limit as int, 0, Seq::empty()) == read_groups(
                s@,
                p as int,
                limit as int,
                i as int,
                groups@,
            ),
        decreases limit - i,
    {
        if i + 1 < limit {
            let v4 = if i > 0 {
                if p < s.len() && s[p] == ':' {
                    read_ipv4_exec(s, p + 1)
                } else {
                    None
                }
            } else {
                read_ipv4_exec(s, p)
            };
            if let Some((o, q)) = v4 {
                assert(o@.len() == 4);
                let ghost before = groups@;
                groups.push((o[0] as u16) * 256 + (o[1] as u16));
                groups.push((o[2] as u16) * 256 + (o[3] as u16));
                assert(groups@ =~= before.push(be16(o@[0], o@[1])).push(be16(o@[2], o@[3])));
                return (groups, q, true);
            }
        }
        let start = if i > 0 {
            if p < s.len() && s[p] == ':' {
                p + 1
            } else {
                return (groups, p, false);
            }
        } else {
            p
        };
        match read_number_exec(s, start, 16, 4, true, 65535) {
            Some((g, q)) => {
                proof {
                    lemma_run_len_bound(s@, start as int, 16);
                }
                let ghost before = groups@;
                groups.push(g as u16);
                assert(groups@ == before.push(g as u16));
                p = q;
                i = i + 1;
            },
            None => {
                return (groups, p, false);
            },
        }
    }
    (groups, p, false)
}

fn read_ipv6_exec(s: &[char], pos: usize) -> (r: Option<(Vec<u16>, usize)>)
    requires
        pos <= s@.len(),
    ensures
        match read_ipv6(s@, pos as int) {
            Some((g, p)) => r matches Some((w, q)) && w@ == g && q == p && p <= s@.len(),
            None => r is None,
        },
{
    let (head, p1, v4) = read_groups_exec(s, pos, 8);
    proof {
        lemma_read_groups_len(s@, pos as int, 8, 0, Seq::empty());
    }
    if head.len() == 8 {
        return Some((head, p1));
    }
    if v4 {
        return None;
    }
    if !(p1 < s.len() && p1 + 1 < s.len() && s[p1] == ':' && s[p1 + 1] == ':') {
        return None;
    }
    let limit = 8 - (head.len() + 1);
    let (tail, p2, _) = read_groups_exec(s, p1 + 2, limit);
    proof {
        lemma_read_groups_len(s@, p1 + 2, limit as int, 0, Seq::empty());
    }
    let mut groups = head;
    let zeros = 8 - groups.len() - tail.len();
    let ghost head_v = groups@;
    let mut k: usize = 0;
    while k < zeros
        invariant
            k <= zeros,
            groups@ == head_v + Seq::new(k as nat, |m: int| 0u16),
        decreases zeros - k,
    {
        groups.push(0);
        k = k + 1;
        assert(groups@ =~= head_v + Seq::new(k as nat, |m: int| 0u16));
    }
    let ghost mid = groups@;
    let mut j: usize = 0;
    while j < tail.len()
        invariant
            j <= tail@.len(),
            groups@ == mid + tail@.take(j as int),
        decreases tail@.len() - j,
    {
        groups.push(tail[j]);
        j = j + 1;
        assert(groups@ =~= mid + tail@.take(j as int));
    }
    assert(tail@.take(j as int) =~= tail@);
    Some((groups, p2))
}

/// Reads a textual IP address as `IpAddr::from_str` does.
pub fn parse_ip_addr(text: &str) -> (r: Option<IpAddress>)
    ensures
        match parse_ip(text@) {
            Some(v) => r matches Some(a) && a@ == v,
            None => r is None,
        },
        r matches Some(a) ==> a.wf(),
{
    proof {
        parse_ip_well_formed(text@);
    }
    let c = crate::text::chars_of(text);
    let s = c.as_slice();
    match read_ipv4_exec(s, 0) {
        Some((o, p)) => {
            if p == s.len() {
                Some(IpAddress::V4(o))
            } else {
                None
            }
        },
        None => match read_ipv6_exec(s, 0) {
            Some((g, p)) => {
                if p == s.len() {
                    Some(IpAddress::V6(g))
                } else {
                    None
                }
            },
            None => None,
        },
    }
}

} // verus!
