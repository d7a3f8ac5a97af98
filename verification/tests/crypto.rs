use myterm::crypto::{decrypt_password, derive_key, encrypt_password, get_master_password, master_password_for};
use sha2::{Digest, Sha256};

#[test]
fn passwords_decrypt_to_what_was_encrypted() {
    let master = master_password_for(Some("box".to_string()));
    for p in ["", "old-secret", "pässwörd ✓", "a much longer password that spans several blocks"] {
        let enc = encrypt_password(p, &master);
        assert_eq!(decrypt_password(&enc, &master).unwrap(), p);
    }
}

#[test]
fn encrypted_text_is_padded_base64() {
    let master = master_password_for(None);
    let enc = encrypt_password("secret", &master);
    assert_ne!(enc, "secret");
    assert_eq!(enc.len(), 24);
    assert!(enc.ends_with("=="));
    let enc16 = encrypt_password("0123456789abcdef", &master);
    assert_eq!(enc16.len(), 44);
}

#[test]
fn decrypt_errors() {
    let master = master_password_for(None);
    assert!(decrypt_password("not base64!", &master).unwrap_err().starts_with("Base64 decode failed: "));
    let enc = encrypt_password("secret", &master);
    let other = master_password_for(Some("elsewhere".to_string()));
    assert!(decrypt_password(&enc, &other).is_err() || decrypt_password(&enc, &other).unwrap() != "secret");
}

#[test]
fn key_and_iv_come_from_salted_hashes() {
    let (key, iv) = derive_key("m");
    let mut h = Sha256::new();
    h.update(b"myterm-app-v1-salt");
    h.update(b"m");
    let expected_key = h.finalize().to_vec();
    assert_eq!(key, expected_key);
    let mut h2 = Sha256::new();
    h2.update(b"iv");
    h2.update(&expected_key);
    assert_eq!(iv, h2.finalize()[..16].to_vec());
}

#[test]
fn master_passwords() {
    assert_eq!(master_password_for(Some("host".to_string())), "myterm-host");
    assert_eq!(master_password_for(None), "myterm-myterm-default");
    assert!(get_master_password().starts_with("myterm-"));
}

#[test]
fn stored_passwords_are_canonical_base64() {
    let enc = myterm::crypto::encrypt_password("secret", "master");
    assert_eq!(enc.len() % 4, 0);
    assert!(enc.chars().all(|c| c.is_ascii_alphanumeric() || c == '+' || c == '/' || c == '='));
    let mut bad = enc.clone();
    bad.push('=');
    assert!(myterm::crypto::decrypt_password(&bad, "master").unwrap_err().starts_with("Base64 decode failed: "));
}
