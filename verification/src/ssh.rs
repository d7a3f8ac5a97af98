//! Decisions of the SSH connection layer: which transport a connection uses
//! (direct, HTTP CONNECT proxy, SOCKS5 proxy, ProxyJump), the bytes of the
//! proxy handshakes and how their replies are judged, and which
//! authentication method is tried.
use vstd::prelude::*;
use vstd::utf8::{decode_utf8, valid_utf8};

use crate::ip::{parse_ip, parse_ip_addr, IpAddress, IpValue};
use crate::text::{
    ascii_lowercase, ascii_lowercase_range, chars_of, concat, decimal, owned, parse_unsigned,
    parse_unsigned_in, push_decimal, push_str, starts_with, starts_with_in, string_from_chars,
    string_from_utf8, string_of_range, tokens, tokens_in, trim, trim_range, utf8_error_text,
};

verus! {

/// Everything needed to open an SSH session.
pub struct SshConnectParams {
    pub host: String,
    pub port: u16,
    pub username: String,
    pub auth_type: String,
    pub password: Option<String>,
    pub key_path: Option<String>,
    pub timeout_ms: Option<u32>,
    pub proxy_type: Option<String>,
    pub proxy_host: Option<String>,
    pub proxy_port: Option<u16>,
    pub proxy_jump_id: Option<String>,
    pub proxy_jump: Option<Box<SshConnectParams>>,
    pub init_command: Option<String>,
    pub init_path: Option<String>,
    pub heartbeat_ms: Option<i32>,
}

pub open spec fn opt_view(o: Option<String>) -> Option<Seq<char>> {
    match o {
        Some(s) => Some(s@),
        None => None,
    }
}

pub fn clone_string(s: &String) -> (r: String)
    ensures
        r@ == s@,
{
    s.clone()
}

pub fn clone_opt(o: &Option<String>) -> (r: Option<String>)
    ensures
        opt_view(r) == opt_view(*o),
{
    match o {
        Some(s) => Some(s.clone()),
        None => None,
    }
}

// ---------------------------------------------------------------------------
// Transport
// ---------------------------------------------------------------------------

/// The proxy kind named by the `proxy_type` field: trimmed and lower-cased;
/// none when the field is missing, blank, or `none` in any case.
pub open spec fn proxy_kind_of(t: Option<Seq<char>>) -> Option<Seq<char>> {
    match t {
        Some(v) => {
            let x = trim(v);
            if x.len() > 0 && ascii_lowercase(x) != ascii_lowercase("none"@) {
                Some(ascii_lowercase(x))
            } else {
                None
            }
        },
        None => None,
    }
}

pub fn proxy_kind(params: &SshConnectParams) -> (r: Option<String>)
    ensures
        opt_view(r) == proxy_kind_of(opt_view(params.proxy_type)),
{
    match &params.proxy_type {
        None => None,
        Some(t) => {
            let c = chars_of(t.as_str());
            let (a, b) = trim_range(c.as_slice(), 0, c.len());
            assert(c@.subrange(0, c@.len() as int) =~= c@);
            if a == b {
                return None;
            }
            let lower = ascii_lowercase_range(c.as_slice(), a, b);
            let none = chars_of("none");
            let none_lower = ascii_lowercase_range(none.as_slice(), 0, none.len());
            assert(none@.subrange(0, none@.len() as int) =~= none@);
            if crate::text::range_eq(lower.as_slice(), 0, lower.len(), none_lower.as_slice()) {
                assert(lower@.subrange(0, lower@.len() as int) =~= lower@);
                None
            } else {
                assert(lower@.subrange(0, lower@.len() as int) =~= lower@);
                Some(string_from_chars(lower.as_slice()))
            }
        },
    }
}

/// The trimmed proxy host when it is not blank.
pub open spec fn proxy_host_of(h: Option<Seq<char>>) -> Option<Seq<char>> {
    match h {
        Some(v) => if trim(v).len() > 0 {
            Some(trim(v))
        } else {
            None
        },
        None => None,
    }
}

/// The proxy to connect to: its trimmed host and its port.  The host is
/// required first, then a port above 0.
pub fn proxy_endpoint(params: &SshConnectParams) -> (r: Result<(String, u16), String>)
    ensures
        match r {
            Ok((h, p)) => proxy_host_of(opt_view(params.proxy_host)) == Some(h@)
                && params.proxy_port == Some(p) && p > 0,
            Err(e) => if proxy_host_of(opt_view(params.proxy_host)) is None {
                e@ == "Proxy host is required"@
            } else {
                e@ == "Proxy port is required"@ && !(params.proxy_port matches Some(p) && p > 0)
            },
        },
{
    let host = match &params.proxy_host {
        Some(h) => {
            let c = chars_of(h.as_str());
            let (a, b) = trim_range(c.as_slice(), 0, c.len());
            assert(c@.subrange(0, c@.len() as int) =~= c@);
            if a == b {
                return Err(string_from_chars(chars_of("Proxy host is required").as_slice()));
            }
            string_of_range(c.as_slice(), a, b)
        },
        None => {
            return Err(string_from_chars(chars_of("Proxy host is required").as_slice()));
        },
    };
    match params.proxy_port {
        Some(p) => {
            if p > 0 {
                Ok((host, p))
            } else {
                Err(string_from_chars(chars_of("Proxy port is required").as_slice()))
            }
        },
        None => Err(string_from_chars(chars_of("Proxy port is required").as_slice())),
    }
}

/// How the TCP stream under an SSH session is obtained.
pub enum Transport {
    /// Through a direct-tcpip channel of an SSH session to the jump host.
    Jump,
    /// A direct TCP connection to the target.
    Direct,
    /// A tunnel through an HTTP proxy (`CONNECT`).
    HttpProxy,
    /// A tunnel through a SOCKS5 proxy.
    Socks5Proxy,
}

pub open spec fn transport_of(kind: Option<Seq<char>>, has_jump: bool) -> Result<Transport, Seq<char>> {
    match kind {
        None => if has_jump {
            Ok(Transport::Jump)
        } else {
            Ok(Transport::Direct)
        },
        Some(k) => if k == "http"@ || k == "https"@ {
            Ok(Transport::HttpProxy)
        } else if k == "socks5"@ || k == "socks"@ {
            Ok(Transport::Socks5Proxy)
        } else {
            Err("Unsupported SSH proxy type: "@ + k)
        },
    }
}

/// `ascii_lowercase` keeps the length of a text.
proof fn lemma_lowercase_len(s: Seq<char>)
    ensures
        ascii_lowercase(s).len() == s.len(),
{
}

/// A proxy type that reads `socks5` or `socks`, whatever its case and the
/// blanks around it, carries the connection through a SOCKS5 proxy, with
/// or without a ProxyJump host.
pub proof fn socks_proxy_types_use_socks5(t: Seq<char>, has_jump: bool)
    requires
        ascii_lowercase(trim(t)) == "socks5"@ || ascii_lowercase(trim(t)) == "socks"@,
    ensures
        transport_of(proxy_kind_of(Some(t)), has_jump) == Ok::<Transport, Seq<char>>(
            Transport::Socks5Proxy,
        ),
{
    reveal_strlit("socks5");
    reveal_strlit("socks");
    reveal_strlit("none");
    reveal_strlit("http");
    reveal_strlit("https");
    lemma_lowercase_len(trim(t));
    lemma_lowercase_len("none"@);
    assert(ascii_lowercase(trim(t)) != ascii_lowercase("none"@));
    assert("socks5"@ != "http"@ && "socks5"@ != "https"@ && "socks"@ != "http"@ && "socks"@ != "https"@) by {
        assert("socks5"@[0] != "http"@[0]);
        assert("socks"@[0] != "https"@[0]);
    }
}

/// A proxy type that reads `http` or `https`, whatever its case and the
/// blanks around it, carries the connection through an HTTP CONNECT proxy.
pub proof fn http_proxy_types_use_connect(t: Seq<char>, has_jump: bool)
    requires
        ascii_lowercase(trim(t)) == "http"@ || ascii_lowercase(trim(t)) == "https"@,
    ensures
        transport_of(proxy_kind_of(Some(t)), has_jump) == Ok::<Transport, Seq<char>>(
            Transport::HttpProxy,
        ),
{
    reveal_strlit("none");
    reveal_strlit("http");
    reveal_strlit("https");
    lemma_lowercase_len(trim(t));
    lemma_lowercase_len("none"@);
    assert(ascii_lowercase(trim(t))[0] == 'h');
    assert(ascii_lowercase("none"@)[0] == 'n');
}

/// Without a proxy type (none given, blank, or `none` in any case) a
/// connection goes through its ProxyJump host when it has one, and directly
/// otherwise.
pub proof fn no_proxy_type_goes_direct_or_jumps(t: Option<Seq<char>>, has_jump: bool)
    requires
        t matches Some(v) ==> trim(v).len() == 0 || ascii_lowercase(trim(v)) == ascii_lowercase("none"@),
    ensures
        transport_of(proxy_kind_of(t), has_jump) == (if has_jump {
            Ok::<Transport, Seq<char>>(Transport::Jump)
        } else {
            Ok::<Transport, Seq<char>>(Transport::Direct)
        }),
{
}

/// The transport of a connection: a proxy type wins over a ProxyJump; an
/// unknown proxy type is refused.
pub fn transport_for(params: &SshConnectParams) -> (r: Result<Transport, String>)
    ensures
        match (r, transport_of(proxy_kind_of(opt_view(params.proxy_type)), params.proxy_jump is Some)) {
            (Ok(t), Ok(u)) => t == u,
            (Err(e), Err(m)) => e@ == m,
            _ => false,
        },
{
    match proxy_kind(params) {
        None => if params.proxy_jump.is_some() {
            Ok(Transport::Jump)
        } else {
            Ok(Transport::Direct)
        },
        Some(kind) => {
            let k = chars_of(kind.as_str());
            let n = k.len();
            let http = chars_of("http");
            let https = chars_of("https");
            let socks5 = chars_of("socks5");
            let socks = chars_of("socks");
            assert(k@.subrange(0, n as int) =~= k@);
            if crate::text::range_eq(k.as_slice(), 0, n, http.as_slice())
                || crate::text::range_eq(k.as_slice(), 0, n, https.as_slice()) {
                Ok(Transport::HttpProxy)
            } else if crate::text::range_eq(k.as_slice(), 0, n, socks5.as_slice())
                || crate::text::range_eq(k.as_slice(), 0, n, socks.as_slice()) {
                Ok(Transport::Socks5Proxy)
            } else {
                Err(concat("Unsupported SSH proxy type: ", kind.as_str()))
            }
        },
    }
}

/// The connect timeout in milliseconds: the configured one, or 10 seconds.
pub fn connect_timeout_ms(params: &SshConnectParams) -> (r: u32)
    ensures
        r == match params.timeout_ms {
            Some(t) => t,
            None => 10000,
        },
{
    match params.timeout_ms {
        Some(t) => t,
        None => 10000,
    }
}

/// `a / b` rounded toward zero, as Rust's integer division does.
pub open spec fn div_toward_zero(a: int, b: int) -> int {
    if a >= 0 {
        a / b
    } else {
        -((-a) / b)
    }
}

/// The keep-alive interval in seconds: the heartbeat (5000 ms when unset)
/// divided by 1000, reinterpreted as `u32` (a negative heartbeat wraps).
pub fn keepalive_interval_secs(heartbeat_ms: Option<i32>) -> (r: u32)
    ensures
        r as int == (match heartbeat_ms {
            Some(h) => div_toward_zero(h as int, 1000),
            None => 5,
        }) % 0x1_0000_0000,
{
    let h: i32 = match heartbeat_ms {
        Some(h) => h,
        None => 5000,
    };
    let q: i32 = h / 1000;
    assert(q as int == div_toward_zero(h as int, 1000));
    if q >= 0 {
        q as u32
    } else {
        let r: u32 = (q as i64 + 0x1_0000_0000i64) as u32;
        r
    }
}

// ---------------------------------------------------------------------------
// HTTP CONNECT proxy
// ---------------------------------------------------------------------------

pub open spec fn authority(host: Seq<char>, port: u16) -> Seq<char> {
    host + ":"@ + decimal(port as nat)
}

/// The request that asks an HTTP proxy for a tunnel to `host:port`.
pub open spec fn http_connect_request_text(host: Seq<char>, port: u16) -> Seq<char> {
    "CONNECT "@ + authority(host, port) + " HTTP/1.1\r\nHost: "@ + authority(host, port)
        + "\r\nProxy-Connection: Keep-Alive\r\n\r\n"@
}

pub fn http_connect_request(host: &str, port: u16) -> (r: String)
    ensures
        r@ == http_connect_request_text(host@, port),
{
    let mut v = chars_of("CONNECT ");
    push_str(&mut v, host);
    push_str(&mut v, ":");
    push_decimal(&mut v, port as u64);
    push_str(&mut v, " HTTP/1.1\r\nHost: ");
    push_str(&mut v, host);
    push_str(&mut v, ":");
    push_decimal(&mut v, port as u64);
    push_str(&mut v, "\r\nProxy-Connection: Keep-Alive\r\n\r\n");
    assert(v@ =~= http_connect_request_text(host@, port));
    string_from_chars(v.as_slice())
}

/// The bytes contain an empty line (`\r\n\r\n`).
pub open spec fn has_blank_line(b: Seq<u8>) -> bool {
    exists|i: int| 0 <= i && i + 4 <= b.len() && #[trigger] b[i] == 13 && b[i + 1] == 10 && b[i
        + 2] == 13 && b[i + 3] == 10
}

/// The longest HTTP response header read from a proxy.
pub const HTTP_HEADER_LIMIT: usize = 8192;

/// What the reader of a CONNECT response does after a read.
pub enum HttpRead {
    /// The header is complete.
    Complete,
    /// Read another byte.
    More,
    /// Give up: the proxy closed the stream or the header grew too long.
    Incomplete,
}

/// The error when the proxy's reply ends, or outgrows the limit, before its
/// header is complete.
pub fn incomplete_header_error() -> (r: String)
    ensures
        r@ == "HTTP proxy CONNECT response did not include a complete header"@,
{
    owned("HTTP proxy CONNECT response did not include a complete header")
}

/// Takes the result of one single-byte read of the proxy's reply (`None` at
/// the end of the stream) and says whether the header is complete.
pub fn http_response_step(response: &mut Vec<u8>, byte: Option<u8>) -> (r: HttpRead)
    requires
        old(response)@.len() < HTTP_HEADER_LIMIT,
    ensures
        match byte {
            None => final(response)@ == old(response)@ && r is Incomplete,
            Some(b) => {
                &&& final(response)@ == old(response)@.push(b)
                &&& (r is Complete <==> has_blank_line(final(response)@))
                &&& (r is Incomplete <==> !has_blank_line(final(response)@)
                    && final(response)@.len() >= HTTP_HEADER_LIMIT)
            },
        },
{
    match byte {
        None => HttpRead::Incomplete,
        Some(b) => {
            response.push(b);
            if blank_line_in(response.as_slice()) {
                HttpRead::Complete
            } else if response.len() >= HTTP_HEADER_LIMIT {
                HttpRead::Incomplete
            } else {
                HttpRead::More
            }
        },
    }
}

fn blank_line_in(b: &[u8]) -> (r: bool)
    ensures
        r == has_blank_line(b@),
{
    if b.len() < 4 {
        return false;
    }
    let mut i: usize = 0;
    while i <= b.len() - 4
        invariant
            b@.len() >= 4,
            forall|j: int| 0 <= j < i ==> !(j + 4 <= b@.len() && #[trigger] b@[j] == 13 && b@[j
                + 1] == 10 && b@[j + 2] == 13 && b@[j + 3] == 10),
        decreases b@.len() - i,
    {
        if b[i] == 13 && b[i + 1] == 10 && b[i + 2] == 13 && b[i + 3] == 10 {
            assert(0 <= i && i + 4 <= b@.len() && b@[i as int] == 13 && b@[i + 1] == 10 && b@[i + 2] == 13 && b@[i + 3] == 10);
            return true;
        }
        i = i + 1;
    }
    false
}

/// The bytes before the first `\r\n`, or all of them.
pub open spec fn status_line_bytes(b: Seq<u8>) -> Seq<u8> {
    if exists|i: int| first_crlf(b, i) {
        b.take(choose|i: int| first_crlf(b, i))
    } else {
        b
    }
}

pub open spec fn first_crlf(b: Seq<u8>, i: int) -> bool {
    &&& 0 <= i && i + 2 <= b.len() && b[i] == 13 && b[i + 1] == 10
    &&& forall|j: int| 0 <= j < i ==> !(#[trigger] b[j] == 13 && b[j + 1] == 10)
}

proof fn lemma_first_line(line: Seq<u8>, rest: Seq<u8>)
    requires
        forall|j: int| 0 <= j && j + 1 < line.len() ==> !(#[trigger] line[j] == 13 && line[j + 1] == 10),
    ensures
        status_line_bytes(line + seq![13u8, 10u8] + rest) == line,
{
    let b = line + seq![13u8, 10u8] + rest;
    let n = line.len() as int;
    assert(b[n] == 13 && b[n + 1] == 10);
    assert forall|j: int| 0 <= j < n implies !(#[trigger] b[j] == 13 && b[j + 1] == 10) by {
        assert(b[j] == line[j]);
        if j + 1 < n {
            assert(b[j + 1] == line[j + 1]);
        } else {
            assert(b[j + 1] == 13);
        }
    }
    assert(first_crlf(b, n));
    let c = choose|i: int| first_crlf(b, i);
    if c < n {
        assert(b[c] == 13 && b[c + 1] == 10);
    }
    if c > n {
        assert(!(b[n] == 13 && b[n + 1] == 10));
    }
    assert(b.take(n) =~= line);
}

/// Only the first line of a CONNECT response is judged: whatever follows
/// its `\r\n` leaves the status, or the error, as it is.
pub proof fn http_status_reads_first_line_only(line: Seq<u8>, rest: Seq<u8>)
    requires
        forall|j: int| 0 <= j && j + 1 < line.len() ==> !(#[trigger] line[j] == 13 && line[j + 1] == 10),
    ensures
        status_line_bytes(line + seq![13u8, 10u8] + rest) == line,
        http_status(line + seq![13u8, 10u8] + rest) == http_status(line + seq![13u8, 10u8]),
{
    lemma_first_line(line, rest);
    lemma_first_line(line, Seq::empty());
    assert(line + seq![13u8, 10u8] + Seq::<u8>::empty() =~= line + seq![13u8, 10u8]);
}

/// Why a CONNECT response is refused.
pub enum StatusError {
    /// The first line, whose bytes are not UTF-8.
    NotUtf8(Seq<u8>),
    Empty,
    InvalidStatusLine(Seq<char>),
    MissingStatusCode,
    /// The second field, which is no number from 0 to 65535.
    BadStatusCode(Seq<char>),
}

/// The status code of a CONNECT response: the second field of its first
/// line, which must be UTF-8 and start with `HTTP/`.
pub open spec fn http_status(response: Seq<u8>) -> Result<u16, StatusError> {
    let lb = status_line_bytes(response);
    if !valid_utf8(lb) {
        Err(StatusError::NotUtf8(lb))
    } else {
        let line = decode_utf8(lb);
        let t = tokens(line);
        if t.len() == 0 {
            Err(StatusError::Empty)
        } else if !starts_with(t[0], "HTTP/"@) {
            Err(StatusError::InvalidStatusLine(line))
        } else if t.len() < 2 {
            Err(StatusError::MissingStatusCode)
        } else {
            match parse_unsigned(t[1], 65535) {
                Some(v) => Ok(v as u16),
                None => Err(StatusError::BadStatusCode(t[1])),
            }
        }
    }
}

/// The message given for a refused CONNECT response.
pub open spec fn status_error_text(e: StatusError) -> Seq<char> {
    match e {
        StatusError::NotUtf8(b) => "HTTP proxy CONNECT response is not UTF-8: "@ + utf8_error_text(b),
        StatusError::Empty => "HTTP proxy CONNECT response is empty"@,
        StatusError::InvalidStatusLine(l) => "HTTP proxy CONNECT response has invalid status line: "@
            + l,
        StatusError::MissingStatusCode => "HTTP proxy CONNECT response missing status code"@,
        StatusError::BadStatusCode(c) => "HTTP proxy CONNECT status parse failed: "@
            + u16_parse_error_text(c),
    }
}

/// The message of the error that `str::parse::<u16>` gives for a text that
/// is no number from 0 to 65535; it depends on the text alone.
pub uninterp spec fn u16_parse_error_text(s: Seq<char>) -> Seq<char>;

/// `str::parse::<u16>`: the number, or else the standard library's error
/// message, named `u16_parse_error_text` of the text (its words are left
/// unstated).
#[verifier::external_body]
fn parse_u16_std(s: &str) -> (r: Result<u16, String>)
    ensures
        match parse_unsigned(s@, 65535) {
            Some(v) => r == Ok::<u16, String>(v as u16),
            None => r matches Err(e) && e@ == u16_parse_error_text(s@),
        },
{
    s.parse::<u16>().map_err(|e| e.to_string())
}

/// The position of the first `\r\n`, or the length when there is none.
fn first_crlf_index(b: &[u8]) -> (e: usize)
    ensures
        e < b@.len() ==> first_crlf(b@, e as int),
        e == b@.len() ==> !exists|c: int| first_crlf(b@, c),
        e <= b@.len(),
{
    let mut i: usize = 0;
    while i < b.len()
        invariant
            i <= b@.len(),
            forall|j: int| 0 <= j < i ==> !(j + 2 <= b@.len() && #[trigger] b@[j] == 13 && b@[j
                + 1] == 10),
        decreases b@.len() - i,
    {
        if i + 1 < b.len() && b[i] == 13 && b[i + 1] == 10 {
            return i;
        }
        i = i + 1;
    }
    assert forall|c: int| !first_crlf(b@, c) by {
        if 0 <= c && c + 2 <= b@.len() && b@[c] == 13 && b@[c + 1] == 10 {
            assert(c < i);
        }
    }
    b.len()
}

/// Reads the status code of an HTTP proxy's reply to `CONNECT`.
pub fn parse_http_connect_status(response: &[u8]) -> (r: Result<u16, String>)
    ensures
        match (http_status(response@), r) {
            (Ok(v), Ok(w)) => v == w,
            (Err(e), Err(m)) => m@ == status_error_text(e),
            _ => false,
        },
{
    let end = first_crlf_index(response);
    let mut line_bytes: Vec<u8> = Vec::new();
    let mut k: usize = 0;
    while k < end
        invariant
            k <= end <= response@.len(),
            line_bytes@ == response@.take(k as int),
        decreases end - k,
    {
        line_bytes.push(response[k]);
        k = k + 1;
        assert(line_bytes@ =~= response@.take(k as int));
    }
    assert(line_bytes@ == status_line_bytes(response@)) by {
        if end < response@.len() {
            let c = choose|c: int| first_crlf(response@, c);
            if c < end {
                assert(!(response@[c] == 13 && response@[c + 1] == 10));
            }
            if end < c {
                assert(!(response@[end as int] == 13 && response@[end + 1] == 10));
            }
        } else {
            assert(response@.take(end as int) =~= response@);
        }
    }
    let line = match string_from_utf8(line_bytes) {
        Ok(l) => l,
        Err(e) => {
            return Err(concat("HTTP proxy CONNECT response is not UTF-8: ", e.as_str()));
        },
    };
    let c = chars_of(line.as_str());
    let t = tokens_in(c.as_slice(), 0, c.len());
    assert(c@.subrange(0, c@.len() as int) =~= c@);
    let ghost tv = tokens(c@);
    assert(tv.len() == t@.len());
    if t.len() == 0 {
        return Err(string_from_chars(chars_of("HTTP proxy CONNECT response is empty").as_slice()));
    }
    assert(0 <= t@[0].0 <= t@[0].1 <= c@.len());
    assert(tv[0] == c@.subrange(t@[0].0 as int, t@[0].1 as int));
    let http = chars_of("HTTP/");
    if !starts_with_in(c.as_slice(), t[0].0, t[0].1, http.as_slice()) {
        return Err(concat("HTTP proxy CONNECT response has invalid status line: ", line.as_str()));
    }
    if t.len() < 2 {
        return Err(
            string_from_chars(
                chars_of("HTTP proxy CONNECT response missing status code").as_slice(),
            ),
        );
    }
    assert(0 <= t@[1].0 <= t@[1].1 <= c@.len());
    assert(tv[1] == c@.subrange(t@[1].0 as int, t@[1].1 as int));
    let code = string_of_range(c.as_slice(), t[1].0, t[1].1);
    match parse_u16_std(code.as_str()) {
        Ok(v) => Ok(v),
        Err(e) => {
            Err(concat("HTTP proxy CONNECT status parse failed: ", e.as_str()))
        },
    }
}

/// Accepts a CONNECT response whose status is 2xx.
pub fn validate_http_connect_response(response: &[u8]) -> (r: Result<(), String>)
    ensures
        match (http_status(response@), r) {
            (Ok(v), Ok(_)) => 200 <= v < 300,
            (Ok(v), Err(m)) => !(200 <= v < 300) && m@ == "HTTP proxy CONNECT failed with status "@
                + decimal(v as nat),
            (Err(e), Err(m)) => m@ == status_error_text(e),
            _ => false,
        },
{
    let status = match parse_http_connect_status(response) {
        Ok(s) => s,
        Err(e) => {
            return Err(e);
        },
    };
    if 200 <= status && status < 300 {
        Ok(())
    } else {
        let mut v = chars_of("HTTP proxy CONNECT failed with status ");
        push_decimal(&mut v, status as u64);
        Err(string_from_chars(v.as_slice()))
    }
}

// ---------------------------------------------------------------------------
// SOCKS5 proxy
// ---------------------------------------------------------------------------

/// The greeting: version 5, one method, no authentication.
pub fn socks5_greeting() -> (r: Vec<u8>)
    ensures
        r@ == seq![5u8, 1u8, 0u8],
{
    let mut r: Vec<u8> = Vec::new();
    r.push(5);
    r.push(1);
    r.push(0);
    r
}

/// Accepts the proxy's method choice when it is version 5 without
/// authentication.
pub fn check_socks5_method(method: &[u8]) -> (r: Result<(), String>)
    requires
        method@.len() == 2,
    ensures
        r is Ok <==> method@ == seq![5u8, 0u8],
        r matches Err(m) ==> m@ == "SOCKS5 proxy rejected no-auth method: version="@ + decimal(
            method@[0] as nat,
        ) + " method="@ + decimal(method@[1] as nat),
{
    if method[0] == 5 && method[1] == 0 {
        assert(method@ =~= seq![5u8, 0u8]);
        Ok(())
    } else {
        let mut v = chars_of("SOCKS5 proxy rejected no-auth method: version=");
        push_decimal(&mut v, method[0] as u64);
        push_str(&mut v, " method=");
        push_decimal(&mut v, method[1] as u64);
        Err(string_from_chars(v.as_slice()))
    }
}

/// The bytes of a 16-bit group, most significant first.
pub open spec fn group_bytes(g: Seq<u16>) -> Seq<u8>
    decreases g.len(),
{
    if g.len() == 0 {
        Seq::empty()
    } else {
        group_bytes(g.drop_last()) + seq![(g.last() / 256) as u8, (g.last() % 256) as u8]
    }
}

/// The SOCKS5 form of an address: type 1 and four octets, or type 4 and
/// sixteen bytes.
pub open spec fn socks5_address(ip: IpValue) -> Seq<u8> {
    match ip {
        IpValue::V4(o) => seq![1u8] + o,
        IpValue::V6(g) => seq![4u8] + group_bytes(g),
    }
}

pub fn encode_socks5_address(ip: &IpAddress) -> (r: Vec<u8>)
    ensures
        r@ == socks5_address(ip@),
{
    let mut r: Vec<u8> = Vec::new();
    match ip {
        IpAddress::V4(o) => {
            r.push(1);
            let mut i: usize = 0;
            while i < o.len()
                invariant
                    i <= o@.len(),
                    r@ == seq![1u8] + o@.take(i as int),
                decreases o@.len() - i,
            {
                r.push(o[i]);
                i = i + 1;
                assert(r@ =~= seq![1u8] + o@.take(i as int));
            }
            assert(o@.take(i as int) =~= o@);
        },
        IpAddress::V6(g) => {
            r.push(4);
            let mut i: usize = 0;
            while i < g.len()
                invariant
                    i <= g@.len(),
                    r@ == seq![4u8] + group_bytes(g@.take(i as int)),
                decreases g@.len() - i,
            {
                let x = g[i];
                r.push((x / 256) as u8);
                r.push((x % 256) as u8);
                assert(g@.take(i + 1).drop_last() =~= g@.take(i as int));
                assert(r@ =~= seq![4u8] + group_bytes(g@.take(i + 1)));
                i = i + 1;
            }
            assert(g@.take(i as int) =~= g@);
        },
    }
    r
}

/// The SOCKS5 CONNECT request for `host:port`: an IP literal is sent as an
/// address, any other host as a domain name of 1 to 255 bytes.
pub open spec fn socks5_request(host: Seq<char>, port: u16) -> Result<Seq<u8>, Seq<char>> {
    let port_bytes = seq![(port / 256) as u8, (port % 256) as u8];
    match parse_ip(host) {
        Some(ip) => Ok(seq![5u8, 1u8, 0u8] + socks5_address(ip) + port_bytes),
        None => {
            let b = vstd::utf8::encode_utf8(host);
            if b.len() == 0 || b.len() > 255 {
                Err("SOCKS5 target host must be 1-255 bytes"@)
            } else {
                Ok(seq![5u8, 1u8, 0u8, 3u8, b.len() as u8] + b + port_bytes)
            }
        },
    }
}

pub fn build_socks5_connect_request(host: &str, port: u16) -> (r: Result<Vec<u8>, String>)
    ensures
        match (socks5_request(host@, port), r) {
            (Ok(b), Ok(v)) => v@ == b,
            (Err(m), Err(e)) => e@ == m,
            _ => false,
        },
{
    let mut request: Vec<u8> = Vec::new();
    request.push(5);
    request.push(1);
    request.push(0);
    match parse_ip_addr(host) {
        Some(ip) => {
            let enc = encode_socks5_address(&ip);
            let ghost before = request@;
            let mut i: usize = 0;
            while i < enc.len()
                invariant
                    i <= enc@.len(),
                    request@ == before + enc@.take(i as int),
                decreases enc@.len() - i,
            {
                request.push(enc[i]);
                i = i + 1;
                assert(request@ =~= before + enc@.take(i as int));
            }
            assert(enc@.take(i as int) =~= enc@);
        },
        None => {
            let b = crate::text::bytes_of(host);
            if b.len() == 0 || b.len() > 255 {
                return Err(
                    string_from_chars(chars_of("SOCKS5 target host must be 1-255 bytes").as_slice()),
                );
            }
            request.push(3);
            request.push(b.len() as u8);
            let ghost before = request@;
            let mut i: usize = 0;
            while i < b.len()
                invariant
                    i <= b@.len(),
                    request@ == before + b@.take(i as int),
                decreases b@.len() - i,
            {
                request.push(b[i]);
                i = i + 1;
                assert(request@ =~= before + b@.take(i as int));
            }
            assert(b@.take(i as int) =~= b@);
        },
    }
    request.push((port / 256) as u8);
    request.push((port % 256) as u8);
    assert(request@ =~= socks5_request(host@, port)->Ok_0);
    Ok(request)
}

/// The text of a SOCKS5 reply code.
pub open spec fn socks5_reply_text(code: u8) -> Seq<char> {
    if code == 1 {
        "general SOCKS server failure"@
    } else if code == 2 {
        "connection not allowed by ruleset"@
    } else if code == 3 {
        "network unreachable"@
    } else if code == 4 {
        "host unreachable"@
    } else if code == 5 {
        "connection refused"@
    } else if code == 6 {
        "TTL expired"@
    } else if code == 7 {
        "command not supported"@
    } else if code == 8 {
        "address type not supported"@
    } else {
        "unknown SOCKS5 error"@
    }
}

pub fn socks5_reply_message(code: u8) -> (r: &'static str)
    ensures
        r@ == socks5_reply_text(code),
{
    match code {
        1 => "general SOCKS server failure",
        2 => "connection not allowed by ruleset",
        3 => "network unreachable",
        4 => "host unreachable",
        5 => "connection refused",
        6 => "TTL expired",
        7 => "command not supported",
        8 => "address type not supported",
        _ => "unknown SOCKS5 error",
    }
}

/// The bound address that follows a successful SOCKS5 reply header.
pub enum Socks5BoundAddress {
    /// An address of this many bytes, then the two port bytes.
    Fixed(usize),
    /// A domain name: one length byte, that many bytes, then the port.
    Domain,
}

/// Judges the 4-byte header of the proxy's reply to CONNECT.
pub fn socks5_reply_header(header: &[u8]) -> (r: Result<Socks5BoundAddress, String>)
    requires
        header@.len() == 4,
    ensures
        header@[0] != 5 ==> (r matches Err(m) && m@ == "SOCKS5 response version mismatch: "@
            + decimal(header@[0] as nat)),
        header@[0] == 5 && header@[1] != 0 ==> (r matches Err(m) && m@
            == "SOCKS5 connect failed: "@ + socks5_reply_text(header@[1])),
        header@[0] == 5 && header@[1] == 0 ==> match header@[3] {
            1 => r matches Ok(Socks5BoundAddress::Fixed(n)) && n == 4,
            3 => r matches Ok(Socks5BoundAddress::Domain),
            4 => r matches Ok(Socks5BoundAddress::Fixed(n)) && n == 16,
            t => r matches Err(m) && m@ == "SOCKS5 response address type unsupported: "@
                + decimal(t as nat),
        },
{
    if header[0] != 5 {
        let mut v = chars_of("SOCKS5 response version mismatch: ");
        push_decimal(&mut v, header[0] as u64);
        return Err(string_from_chars(v.as_slice()));
    }
    if header[1] != 0 {
        return Err(concat("SOCKS5 connect failed: ", socks5_reply_message(header[1])));
    }
    match header[3] {
        1 => Ok(Socks5BoundAddress::Fixed(4)),
        3 => Ok(Socks5BoundAddress::Domain),
        4 => Ok(Socks5BoundAddress::Fixed(16)),
        other => {
            let mut v = chars_of("SOCKS5 response address type unsupported: ");
            push_decimal(&mut v, other as u64);
            Err(string_from_chars(v.as_slice()))
        },
    }
}

// ---------------------------------------------------------------------------
// Authentication
// ---------------------------------------------------------------------------

/// `PathBuf::push` on Unix: an absolute `rest` replaces `base`; otherwise a
/// separator is added unless `base` is empty or already ends with one.
pub open spec fn path_join(base: Seq<char>, rest: Seq<char>) -> Seq<char> {
    if rest.len() > 0 && rest[0] == '/' {
        rest
    } else if base.len() == 0 || base.last() == '/' {
        base + rest
    } else {
        base + "/"@ + rest
    }
}

pub fn path_join_str(base: &str, rest: &str) -> (r: String)
    ensures
        r@ == path_join(base@, rest@),
{
    let b = chars_of(base);
    let t = chars_of(rest);
    if t.len() > 0 && t[0] == '/' {
        return string_from_chars(t.as_slice());
    }
    if b.len() == 0 || b[b.len() - 1] == '/' {
        concat(base, rest)
    } else {
        let mut v = b;
        push_str(&mut v, "/");
        push_str(&mut v, rest);
        string_from_chars(v.as_slice())
    }
}

/// `~` and `~/...` expanded against the home directory, when it is known.
pub open spec fn expanded_home(path: Seq<char>, home: Option<Seq<char>>) -> Seq<char> {
    if path == "~"@ {
        match home {
            Some(h) => h,
            None => path,
        }
    } else if starts_with(path, "~/"@) && home is Some {
        path_join(home->0, path.skip(2))
    } else {
        path
    }
}

pub fn expand_home(path: &str, home: &Option<String>) -> (r: String)
    ensures
        r@ == expanded_home(path@, opt_view(*home)),
{
    let p = chars_of(path);
    let tilde = chars_of("~");
    assert(p@.subrange(0, p@.len() as int) =~= p@);
    if crate::text::range_eq(p.as_slice(), 0, p.len(), tilde.as_slice()) {
        return match home {
            Some(h) => h.clone(),
            None => string_from_chars(p.as_slice()),
        };
    }
    let prefix = chars_of("~/");
    proof {
        reveal_strlit("~/");
    }
    if starts_with_in(p.as_slice(), 0, p.len(), prefix.as_slice()) {
        if let Some(h) = home {
            let rest = string_of_range(p.as_slice(), 2, p.len());
            assert(p@.skip(2) =~= p@.subrange(2, p@.len() as int));
            return path_join_str(h.as_str(), rest.as_str());
        }
    }
    string_from_chars(p.as_slice())
}

/// The authentication a session tries.
pub enum AuthMethod {
    /// A password, with the prefix of the message given when it is refused.
    Password { password: String, failure: String },
    /// A private key file.
    PublicKeyFile { key_path: String },
    /// The SSH agent, then the default private keys.
    AgentOrDefaultKeys,
}

pub open spec fn nonempty_opt(o: Option<Seq<char>>) -> Option<Seq<char>> {
    match o {
        Some(v) => if v.len() > 0 {
            Some(v)
        } else {
            None
        },
        None => None,
    }
}

/// A password given for `password` and `interactive` authentication, a key
/// file for `key` authentication (with `~` expanded); otherwise, or when the
/// secret is missing or empty, the agent and the default keys.
pub open spec fn auth_method_of(
    auth_type: Seq<char>,
    password: Option<Seq<char>>,
    key_path: Option<Seq<char>>,
    home: Option<Seq<char>>,
    m: AuthMethod,
) -> bool {
    if auth_type == "password"@ && nonempty_opt(password) is Some {
        m matches AuthMethod::Password { password: p, failure: f } && p@ == password->0
            && f@ == "Password auth failed"@
    } else if auth_type == "key"@ && nonempty_opt(key_path) is Some {
        m matches AuthMethod::PublicKeyFile { key_path: k } && k@ == expanded_home(
            key_path->0,
            home,
        )
    } else if auth_type == "interactive"@ && nonempty_opt(password) is Some {
        m matches AuthMethod::Password { password: p, failure: f } && p@ == password->0
            && f@ == "Interactive auth failed"@
    } else {
        m is AgentOrDefaultKeys
    }
}

fn opt_nonempty(o: &Option<String>) -> (b: bool)
    ensures
        b == (nonempty_opt(opt_view(*o)) is Some),
{
    match o {
        Some(v) => chars_of(v.as_str()).len() > 0,
        None => false,
    }
}

/// The authentication to try for a connection; `home` is the user's home
/// directory, used to expand a key path.
pub fn auth_method(params: &SshConnectParams, home: &Option<String>) -> (r: AuthMethod)
    ensures
        auth_method_of(
            params.auth_type@,
            opt_view(params.password),
            opt_view(params.key_path),
            opt_view(*home),
            r,
        ),
{
    let t = params.auth_type.as_str();
    if crate::text::str_eq(t, "password") && opt_nonempty(&params.password) {
        let p = params.password.as_ref().unwrap();
        return AuthMethod::Password {
            password: p.clone(),
            failure: string_from_chars(chars_of("Password auth failed").as_slice()),
        };
    }
    if crate::text::str_eq(t, "key") && opt_nonempty(&params.key_path) {
        let k = params.key_path.as_ref().unwrap();
        return AuthMethod::PublicKeyFile { key_path: expand_home(k.as_str(), home) };
    }
    if crate::text::str_eq(t, "interactive") && opt_nonempty(&params.password) {
        let p = params.password.as_ref().unwrap();
        return AuthMethod::Password {
            password: p.clone(),
            failure: string_from_chars(chars_of("Interactive auth failed").as_slice()),
        };
    }
    AuthMethod::AgentOrDefaultKeys
}

/// `: detail` when there is a detail, nothing otherwise.
pub open spec fn detail_suffix(last: Option<Seq<char>>) -> Seq<char> {
    match last {
        Some(e) => ": "@ + e,
        None => Seq::empty(),
    }
}

fn with_detail(head: &str, last: &Option<String>) -> (r: String)
    ensures
        r@ == head@ + detail_suffix(opt_view(*last)),
{
    match last {
        Some(e) => {
            let mut v = chars_of(head);
            push_str(&mut v, ": ");
            push_str(&mut v, e.as_str());
            string_from_chars(v.as_slice())
        },
        None => {
            let v = chars_of(head);
            string_from_chars(v.as_slice())
        },
    }
}

/// The message when no agent identity authenticated the session.
pub fn agent_failure_message(last_error: &Option<String>) -> (r: String)
    ensures
        r@ == "Agent auth failed"@ + detail_suffix(opt_view(*last_error)),
{
    with_detail("Agent auth failed", last_error)
}

/// The default private keys, in the order they are tried.
pub fn default_key_paths(home: &str) -> (r: Vec<String>)
    ensures
        r@.len() == 4,
        r@[0]@ == path_join(home@, ".ssh/id_ed25519"@),
        r@[1]@ == path_join(home@, ".ssh/id_rsa"@),
        r@[2]@ == path_join(home@, ".ssh/id_ecdsa"@),
        r@[3]@ == path_join(home@, ".ssh/id_dsa"@),
{
    let mut r: Vec<String> = Vec::new();
    r.push(path_join_str(home, ".ssh/id_ed25519"));
    r.push(path_join_str(home, ".ssh/id_rsa"));
    r.push(path_join_str(home, ".ssh/id_ecdsa"));
    r.push(path_join_str(home, ".ssh/id_dsa"));
    r
}

/// The message when no default key authenticated the session.
pub fn default_keys_failure_message(tried: usize, last_error: &Option<String>) -> (r: String)
    ensures
        tried == 0 ==> r@ == "No default private keys found"@,
        tried > 0 ==> r@ == "Default key auth failed"@ + detail_suffix(opt_view(*last_error)),
{
    if tried == 0 {
        string_from_chars(chars_of("No default private keys found").as_slice())
    } else {
        with_detail("Default key auth failed", last_error)
    }
}

/// The message when neither the agent nor the default keys worked.
pub fn agent_and_keys_failure_message(agent_error: &str, keys_error: &str) -> (r: String)
    ensures
        r@ == "Key/agent auth failed: "@ + agent_error@ + "; "@ + keys_error@,
{
    let mut v = chars_of("Key/agent auth failed: ");
    push_str(&mut v, agent_error);
    push_str(&mut v, "; ");
    push_str(&mut v, keys_error);
    string_from_chars(v.as_slice())
}

} // verus!
