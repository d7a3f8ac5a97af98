use myterm::forward::{
    bind_address, forward_kind, socks5_connect_reply, socks5_method_reply,
    socks5_request_in_buffer, socks5_target,
    ForwardKind, PortForward, PortForwardManager,
};

fn forward(id: &str) -> PortForward {
    PortForward {
        id: id.to_string(),
        session_id: "s1".to_string(),
        forward_type: "local".to_string(),
        local_host: "127.0.0.1".to_string(),
        local_port: 8080,
        remote_host: "db".to_string(),
        remote_port: 5432,
        active: true,
    }
}

#[test]
fn forward_types() {
    assert!(matches!(forward_kind("local"), Ok(ForwardKind::Local)));
    assert!(matches!(forward_kind("dynamic"), Ok(ForwardKind::Dynamic)));
    assert_eq!(forward_kind("remote").err().unwrap(), "Remote forwarding not yet supported");
    assert_eq!(forward_kind("Local").err().unwrap(), "Invalid forward type");
    assert_eq!(bind_address("127.0.0.1", 1080), "127.0.0.1:1080");
}

#[test]
fn forwards_are_listed_and_closed() {
    let mut m = PortForwardManager::new();
    m.add(forward("f1"));
    m.add(forward("f2"));
    let mut listed = m.list();
    listed.sort_by(|a, b| a.id.cmp(&b.id));
    assert_eq!(listed.len(), 2);
    assert!(listed.iter().all(|f| f.active));
    m.close("f1");
    m.close("missing");
    let listed = m.list();
    assert_eq!(listed.len(), 2);
    for f in listed {
        assert_eq!(f.active, f.id != "f1");
    }
}

fn request(bytes: &[u8]) -> Vec<u8> {
    let mut buf = vec![0u8; 256];
    buf[..bytes.len()].copy_from_slice(bytes);
    buf
}

#[test]
fn socks5_targets() {
    let ipv4 = request(&[5, 1, 0, 1, 10, 0, 0, 7, 0x1f, 0x90]);
    assert_eq!(socks5_target(&ipv4), Some(("10.0.0.7".to_string(), 8080)));
    let mut domain = vec![5, 1, 0, 3, 7];
    domain.extend_from_slice(b"example");
    domain.extend_from_slice(&[0, 80]);
    assert_eq!(socks5_target(&request(&domain)), Some(("example".to_string(), 80)));
    assert_eq!(socks5_target(&request(&[4, 1, 0, 1])), None);
    assert_eq!(socks5_target(&request(&[5, 1, 0, 4])), None);
    assert_eq!(socks5_method_reply(), vec![5, 0]);
    assert_eq!(socks5_connect_reply(true), vec![5, 0, 0, 1, 0, 0, 0, 0, 0, 0]);
    assert_eq!(socks5_connect_reply(false), vec![5, 1, 0, 1, 0, 0, 0, 0, 0, 0]);
}

#[test]
fn socks5_domain_bytes_are_read_lossily() {
    let mut domain = vec![5, 1, 0, 3, 2, 0xff, b'a', 0, 1];
    domain.truncate(9);
    assert_eq!(socks5_target(&request(&domain)), Some(("\u{fffd}a".to_string(), 1)));
}

#[test]
fn socks5_request_buffer_fit() {
    let mut buf = vec![0u8; 256];
    buf[0] = 5;
    buf[1] = 1;
    buf[3] = 3;
    buf[4] = 249;
    assert!(socks5_request_in_buffer(&buf));
    buf[4] = 250;
    assert!(!socks5_request_in_buffer(&buf));
    buf[3] = 1;
    assert!(socks5_request_in_buffer(&buf));
    assert!(!socks5_request_in_buffer(&buf[..255]));
}
