use myterm::ip::{parse_ip_addr, IpAddress};
use myterm::ssh::{
    auth_method, build_socks5_connect_request, check_socks5_method, connect_timeout_ms,
    default_key_paths, encode_socks5_address, expand_home, http_connect_request,
    http_response_step, incomplete_header_error, keepalive_interval_secs, parse_http_connect_status, proxy_endpoint,
    proxy_kind, socks5_reply_header, socks5_reply_message, transport_for,
    validate_http_connect_response, AuthMethod, HttpRead, Socks5BoundAddress, SshConnectParams,
    Transport,
};

fn params() -> SshConnectParams {
    SshConnectParams {
        host: "target.example".to_string(),
        port: 22,
        username: "root".to_string(),
        auth_type: "password".to_string(),
        password: Some("secret".to_string()),
        key_path: None,
        timeout_ms: None,
        proxy_type: None,
        proxy_host: None,
        proxy_port: None,
        proxy_jump_id: None,
        proxy_jump: None,
        init_command: None,
        init_path: None,
        heartbeat_ms: None,
    }
}

#[test]
fn parses_successful_http_connect_response() {
    let response = b"HTTP/1.1 200 Connection established\r\nProxy-Agent: test\r\n\r\n";

    let status = parse_http_connect_status(response).expect("status should parse");

    assert_eq!(status, 200);
}

#[test]
fn rejects_unsuccessful_http_connect_response() {
    let response = b"HTTP/1.1 407 Proxy Authentication Required\r\n\r\n";

    let err = validate_http_connect_response(response).expect_err("407 must fail");

    assert!(err.contains("407"));
}

#[test]
fn builds_socks5_domain_connect_request() {
    let request = build_socks5_connect_request("example.com", 22).expect("request");

    assert_eq!(
        request,
        vec![
            0x05, 0x01, 0x00, 0x03, 11, b'e', b'x', b'a', b'm', b'p', b'l', b'e', b'.', b'c',
            b'o', b'm', 0x00, 0x16
        ]
    );
}

#[test]
fn builds_socks5_ipv4_connect_request() {
    let request = build_socks5_connect_request("127.0.0.1", 2222).expect("request");

    assert_eq!(request, vec![0x05, 0x01, 0x00, 0x01, 127, 0, 0, 1, 0x08, 0xae]);
}

#[test]
fn encodes_socks5_address_variants() {
    assert_eq!(
        encode_socks5_address(&IpAddress::V4(vec![10, 0, 0, 1])),
        vec![0x01, 10, 0, 0, 1]
    );
    assert_eq!(
        encode_socks5_address(&IpAddress::V6(vec![0, 0, 0, 0, 0, 0, 0, 1])),
        vec![0x04, 0, 0, 0, 0, 0, 0, 0, 0, 0, 0, 0, 0, 0, 0, 0, 1]
    );
}

#[test]
fn socks5_request_for_ipv6_literal() {
    let request = build_socks5_connect_request("::1", 22).expect("request");
    let mut expected = vec![0x05, 0x01, 0x00, 0x04];
    expected.extend_from_slice(&[0, 0, 0, 0, 0, 0, 0, 0, 0, 0, 0, 0, 0, 0, 0, 1]);
    expected.extend_from_slice(&[0, 22]);
    assert_eq!(request, expected);
}

#[test]
fn socks5_request_refuses_long_domain() {
    let host = "a".repeat(256);
    assert!(build_socks5_connect_request(&host, 22).is_err());
}

#[test]
fn reads_ip_literals() {
    assert!(matches!(parse_ip_addr("192.168.0.1"), Some(IpAddress::V4(ref o)) if o == &vec![192, 168, 0, 1]));
    assert!(matches!(parse_ip_addr("fe80::1"), Some(IpAddress::V6(ref g)) if g == &vec![0xfe80, 0, 0, 0, 0, 0, 0, 1]));
    assert!(parse_ip_addr("256.0.0.1").is_none());
    assert!(parse_ip_addr("example.com").is_none());
    assert!(parse_ip_addr("01.2.3.4").is_none());
}

#[test]
fn http_connect_request_text() {
    assert_eq!(
        http_connect_request("example.com", 22),
        "CONNECT example.com:22 HTTP/1.1\r\nHost: example.com:22\r\nProxy-Connection: Keep-Alive\r\n\r\n"
    );
}

#[test]
fn http_status_errors() {
    assert!(parse_http_connect_status(b"").is_err());
    assert!(parse_http_connect_status(b"garbage\r\n\r\n").is_err());
    assert!(parse_http_connect_status(b"HTTP/1.1 abc Bad\r\n\r\n").is_err());
    assert!(validate_http_connect_response(b"HTTP/1.0 204 No Content\r\n\r\n").is_ok());
}

#[test]
fn http_reply_is_read_until_blank_line() {
    let mut response = Vec::new();
    let mut last = HttpRead::More;
    for b in b"HTTP/1.1 200 OK\r\n\r\n".iter() {
        last = http_response_step(&mut response, Some(*b));
        if !matches!(last, HttpRead::More) {
            break;
        }
    }
    assert!(matches!(last, HttpRead::Complete));
    assert!(matches!(http_response_step(&mut Vec::new(), None), HttpRead::Incomplete));
}

#[test]
fn socks5_method_and_reply_checks() {
    assert!(check_socks5_method(&[5, 0]).is_ok());
    assert!(check_socks5_method(&[5, 2]).is_err());
    assert!(matches!(socks5_reply_header(&[5, 0, 0, 1]), Ok(Socks5BoundAddress::Fixed(4))));
    assert!(matches!(socks5_reply_header(&[5, 0, 0, 4]), Ok(Socks5BoundAddress::Fixed(16))));
    assert!(matches!(socks5_reply_header(&[5, 0, 0, 3]), Ok(Socks5BoundAddress::Domain)));
    assert_eq!(
        socks5_reply_header(&[5, 5, 0, 1]).err().unwrap(),
        "SOCKS5 connect failed: connection refused"
    );
    assert_eq!(socks5_reply_message(9), "unknown SOCKS5 error");
}

#[test]
fn proxy_kind_and_endpoint() {
    let mut p = params();
    p.proxy_type = Some("  SOCKS5 ".to_string());
    assert_eq!(proxy_kind(&p).as_deref(), Some("socks5"));
    p.proxy_type = Some("None".to_string());
    assert_eq!(proxy_kind(&p), None);
    p.proxy_host = Some("  ".to_string());
    assert_eq!(proxy_endpoint(&p).err().unwrap(), "Proxy host is required");
    p.proxy_host = Some(" 10.0.0.2 ".to_string());
    assert_eq!(proxy_endpoint(&p).err().unwrap(), "Proxy port is required");
    p.proxy_port = Some(3128);
    assert_eq!(proxy_endpoint(&p).unwrap(), ("10.0.0.2".to_string(), 3128));
}

#[test]
fn transport_choice() {
    let mut p = params();
    assert!(matches!(transport_for(&p), Ok(Transport::Direct)));
    p.proxy_jump = Some(Box::new(params()));
    assert!(matches!(transport_for(&p), Ok(Transport::Jump)));
    p.proxy_type = Some("http".to_string());
    assert!(matches!(transport_for(&p), Ok(Transport::HttpProxy)));
    p.proxy_type = Some("ftp".to_string());
    assert_eq!(transport_for(&p).err().unwrap(), "Unsupported SSH proxy type: ftp");
}

#[test]
fn timeouts_and_keepalive() {
    let mut p = params();
    assert_eq!(connect_timeout_ms(&p), 10000);
    p.timeout_ms = Some(3000);
    assert_eq!(connect_timeout_ms(&p), 3000);
    assert_eq!(keepalive_interval_secs(None), 5);
    assert_eq!(keepalive_interval_secs(Some(7000)), 7);
    assert_eq!(keepalive_interval_secs(Some(999)), 0);
}

#[test]
fn home_expansion_and_default_keys() {
    let home = Some("/home/me".to_string());
    assert_eq!(expand_home("~/.ssh/id_rsa", &home), "/home/me/.ssh/id_rsa");
    assert_eq!(expand_home("~", &home), "/home/me");
    assert_eq!(expand_home("/etc/key", &home), "/etc/key");
    assert_eq!(expand_home("~/k", &None), "~/k");
    let keys = default_key_paths("/home/me");
    assert_eq!(keys[0], "/home/me/.ssh/id_ed25519");
    assert_eq!(keys[3], "/home/me/.ssh/id_dsa");
}

#[test]
fn chooses_authentication() {
    let p = params();
    assert!(matches!(auth_method(&p, &None), AuthMethod::Password { .. }));
    let mut k = params();
    k.auth_type = "key".to_string();
    k.key_path = Some("~/id".to_string());
    match auth_method(&k, &Some("/h".to_string())) {
        AuthMethod::PublicKeyFile { key_path } => assert_eq!(key_path, "/h/id"),
        _ => panic!("expected a key file"),
    }
    k.key_path = None;
    assert!(matches!(auth_method(&k, &None), AuthMethod::AgentOrDefaultKeys));
}

#[test]
fn http_status_error_texts_are_whole() {
    let bad = vec![b'H', 0xff, b'x'];
    let mut response = bad.clone();
    response.extend_from_slice(b"\r\n\xff\xfe");
    let utf8 = String::from_utf8(bad).unwrap_err().to_string();
    let expected = format!("HTTP proxy CONNECT response is not UTF-8: {}", utf8);
    assert_eq!(parse_http_connect_status(&response), Err(expected.clone()));
    assert_eq!(validate_http_connect_response(&response), Err(expected));

    let parse = "abc".parse::<u16>().unwrap_err().to_string();
    let expected = format!("HTTP proxy CONNECT status parse failed: {}", parse);
    assert_eq!(parse_http_connect_status(b"HTTP/1.1 abc Bad\r\n\r\n"), Err(expected.clone()));
    assert_eq!(validate_http_connect_response(b"HTTP/1.1 abc Bad\r\n\r\n"), Err(expected));

    let big = "70000".parse::<u16>().unwrap_err().to_string();
    assert_eq!(
        parse_http_connect_status(b"HTTP/1.1 70000 Big\r\n"),
        Err(format!("HTTP proxy CONNECT status parse failed: {}", big))
    );
    assert_eq!(
        parse_http_connect_status(b"HTTP/1.1\r\n"),
        Err("HTTP proxy CONNECT response missing status code".to_string())
    );
    assert_eq!(
        parse_http_connect_status(b"garbage here\r\nHTTP/1.1 200 OK"),
        Err("HTTP proxy CONNECT response has invalid status line: garbage here".to_string())
    );
}

#[test]
fn incomplete_header_message() {
    assert_eq!(
        incomplete_header_error(),
        "HTTP proxy CONNECT response did not include a complete header"
    );
}

#[test]
fn parsed_addresses_have_their_full_length() {
    match parse_ip_addr("::1") {
        Some(IpAddress::V6(g)) => assert_eq!(g, vec![0, 0, 0, 0, 0, 0, 0, 1]),
        _ => panic!("expected IPv6"),
    }
    match parse_ip_addr("1::") {
        Some(IpAddress::V6(g)) => assert_eq!(g.len(), 8),
        _ => panic!("expected IPv6"),
    }
    match parse_ip_addr("10.0.0.1") {
        Some(IpAddress::V4(o)) => assert_eq!(o, vec![10, 0, 0, 1]),
        _ => panic!("expected IPv4"),
    }
}

#[test]
fn only_the_first_line_is_judged() {
    let mut response = b"HTTP/1.1 200 OK\r\n".to_vec();
    assert_eq!(parse_http_connect_status(&response), Ok(200));
    response.extend_from_slice(&[0xff, 0xfe, b'\r', b'\n', b'x']);
    assert_eq!(parse_http_connect_status(&response), Ok(200));
    assert_eq!(
        parse_http_connect_status(b"HTTP/1.1 299x\r\nHTTP/1.1 200 OK\r\n"),
        parse_http_connect_status(b"HTTP/1.1 299x\r\n")
    );
}
