use myterm::connections::{
    auth_type_keeps_password, export_data, extract_info, load_ssh_params, non_empty,
    params_of_stored, password_update, port_i32_to_u16, server_info_from_output,
    server_info_output_fits, ssh_params_from_input, to_response, PasswordUpdate, StoredConnection,
};
use myterm::crypto::{decrypt_password, encrypt_password, master_password_for};
use myterm::models::{Connection, ConnectionInput};

fn master() -> String {
    master_password_for(Some("test-host".to_string()))
}

fn stored(id: &str, host: &str, auth_type: &str, username: &str) -> StoredConnection {
    StoredConnection {
        id: id.to_string(),
        host: host.to_string(),
        port: 22,
        auth_type: auth_type.to_string(),
        username: username.to_string(),
        password_enc: None,
        key_path: None,
        proxy_type: None,
        proxy_host: None,
        proxy_port: None,
        proxy_jump_id: None,
        timeout_ms: None,
        init_command: None,
        init_path: None,
        heartbeat_ms: None,
    }
}

fn input(id: Option<&str>) -> ConnectionInput {
    ConnectionInput {
        id: id.map(|s| s.to_string()),
        name: "Server".to_string(),
        host: "127.0.0.1".to_string(),
        port: Some(22),
        auth_type: Some("password".to_string()),
        username: Some("root".to_string()),
        password: None,
        key_path: None,
        group_id: None,
        credential_id: None,
        proxy_type: None,
        proxy_host: None,
        proxy_port: None,
        proxy_jump_id: None,
        init_command: None,
        init_path: None,
        timeout_ms: None,
        heartbeat_ms: None,
        remark: None,
    }
}

/// The stored encrypted password after an update, as the update command
/// writes it.
fn password_after_update(stored_enc: Option<String>, auth_type: &str, password: Option<&str>) -> Option<String> {
    match password_update(auth_type, password) {
        PasswordUpdate::Replace(p) => Some(encrypt_password(&p, &master())),
        PasswordUpdate::KeepStored => stored_enc,
        PasswordUpdate::Clear => None,
    }
}

#[test]
fn update_password_preserves_existing_password_when_input_omits_password() {
    let stored_enc = Some(encrypt_password("old-secret", &master()));

    let encrypted = password_after_update(stored_enc, "password", None);

    let plaintext = decrypt_password(encrypted.as_deref().expect("encrypted"), &master()).expect("decrypt");
    assert_eq!(plaintext, "old-secret");
}

#[test]
fn update_password_clears_existing_password_when_switching_to_key_auth() {
    let stored_enc = Some(encrypt_password("old-secret", &master()));

    let encrypted = password_after_update(stored_enc, "key", None);

    assert!(encrypted.is_none());
}

#[test]
fn ssh_params_from_input_reuses_saved_password_for_existing_connection_test() {
    let mut row = stored("conn-1", "127.0.0.1", "password", "root");
    row.password_enc = Some(encrypt_password("old-secret", &master()));
    row.heartbeat_ms = Some(5000);
    let saved = params_of_stored(&row, &master());

    let params = ssh_params_from_input(input(Some("conn-1")), Some(saved), None).expect("params");

    assert_eq!(params.password.as_deref(), Some("old-secret"));
}

#[test]
fn loads_proxy_fields_for_stored_connection() {
    let jump = stored("jump-1", "jump.example", "key", "jumper");
    let mut target = stored("conn-1", "target.example", "key", "tester");
    target.proxy_type = Some("socks5".to_string());
    target.proxy_host = Some("127.0.0.1".to_string());
    target.proxy_port = Some(1080);
    target.proxy_jump_id = Some("jump-1".to_string());
    target.heartbeat_ms = Some(7000);
    let rows = vec![jump, target];

    let params = load_ssh_params(&rows, "conn-1", &master()).expect("params");

    assert_eq!(params.proxy_type.as_deref(), Some("socks5"));
    assert_eq!(params.proxy_host.as_deref(), Some("127.0.0.1"));
    assert_eq!(params.proxy_port, Some(1080));
    assert_eq!(params.proxy_jump_id.as_deref(), Some("jump-1"));
    assert_eq!(params.heartbeat_ms, Some(7000));
    assert_eq!(params.proxy_jump.as_ref().expect("jump").host, "jump.example");
}

#[test]
fn loading_a_missing_connection_fails() {
    let rows = vec![stored("a", "h", "key", "u")];
    assert_eq!(
        load_ssh_params(&rows, "b", &master()).err().unwrap(),
        "Connection not found: Query returned no rows"
    );
}

#[test]
fn proxy_jump_cycles_are_refused() {
    let mut a = stored("a", "ha", "key", "u");
    a.proxy_jump_id = Some("b".to_string());
    let mut b = stored("b", "hb", "key", "u");
    b.proxy_jump_id = Some("a".to_string());
    let rows = vec![a, b];
    assert_eq!(
        load_ssh_params(&rows, "a", &master()).err().unwrap(),
        "ProxyJump cycle detected at connection a"
    );
}

#[test]
fn form_errors() {
    let mut i = input(None);
    i.host = "  ".to_string();
    assert_eq!(ssh_params_from_input(i, None, None).err().unwrap(), "Host is required");
    let mut i = input(None);
    i.port = Some(70000);
    assert_eq!(ssh_params_from_input(i, None, None).err().unwrap(), "Port must be between 1 and 65535");
}

#[test]
fn password_update_choices() {
    assert!(matches!(password_update("key", Some("new")), PasswordUpdate::Replace(ref p) if p == "new"));
    assert!(matches!(password_update("interactive", Some("")), PasswordUpdate::KeepStored));
    assert!(matches!(password_update("agent", None), PasswordUpdate::Clear));
    assert!(auth_type_keeps_password("password"));
    assert!(!auth_type_keeps_password("key"));
}

#[test]
fn blank_values_and_ports() {
    assert_eq!(non_empty(Some("  ".to_string())), None);
    assert_eq!(non_empty(Some(" x ".to_string())).as_deref(), Some(" x "));
    assert_eq!(port_i32_to_u16(22, "Port").unwrap(), 22);
    assert_eq!(port_i32_to_u16(0, "Proxy port").err().unwrap(), "Proxy port must be between 1 and 65535");
}

fn connection(password_enc: Option<&str>) -> Connection {
    Connection {
        id: "c".to_string(),
        group_id: None,
        name: "n".to_string(),
        host: "h".to_string(),
        port: 22,
        auth_type: "password".to_string(),
        username: None,
        password_enc: password_enc.map(|s| s.to_string()),
        key_path: None,
        credential_id: None,
        proxy_type: None,
        proxy_host: None,
        proxy_port: None,
        proxy_jump_id: None,
        init_command: None,
        init_path: None,
        timeout_ms: None,
        heartbeat_ms: None,
        remark: None,
        created_at: None,
        updated_at: None,
    }
}

#[test]
fn responses_hide_the_secret() {
    assert!(to_response(&connection(Some("abc"))).has_password);
    assert!(!to_response(&connection(Some(""))).has_password);
    assert!(!to_response(&connection(None)).has_password);
}

#[test]
fn export_format_version() {
    assert_eq!(export_data(Vec::new()).version, "1.0");
}

#[test]
fn hardware_report() {
    let out = "===OS===\nUbuntu 22.04\n===CPU===\n8\n===MEM===\n2048\n===DISK===\n1000\n===END===";
    assert_eq!(extract_info(out, "OS").as_deref(), Some("Ubuntu 22.04"));
    assert_eq!(extract_info(out, "GPU"), None);
    assert!(server_info_output_fits(out));
    let info = server_info_from_output(out);
    assert_eq!(info.os, "Ubuntu 22.04");
    assert_eq!(info.cpu_cores, 8);
    assert_eq!(info.memory_total, 2048 * 1024);
    assert_eq!(info.disk_total, 1000);
    let odd = "===CPU===\nmany\n===END===";
    assert_eq!(server_info_from_output(odd).cpu_cores, 1);
}
