use myterm::registry::Registry;

#[test]
fn objects_are_kept_by_id() {
    let mut r: Registry<u32> = Registry::new();
    assert!(r.get("a").is_none());
    r.insert("a".to_string(), 1);
    r.insert("b".to_string(), 2);
    assert_eq!(r.get("a"), Some(&1));
    r.insert("a".to_string(), 3);
    assert_eq!(r.get("a"), Some(&3));
    let mut ids = r.ids();
    ids.sort();
    assert_eq!(ids, vec!["a".to_string(), "b".to_string()]);
    assert_eq!(r.remove("a"), Some(3));
    assert_eq!(r.remove("a"), None);
    assert!(!r.contains("a"));
    assert!(r.contains("b"));
}

#[test]
fn fresh_ids_are_uuids() {
    let a = myterm::registry::new_id();
    let b = myterm::registry::new_id();
    assert_eq!(a.len(), 36);
    assert_ne!(a, b);
    let mut r: Registry<&str> = Registry::new();
    let id = r.insert_new("session");
    assert_eq!(r.get(&id), Some(&"session"));
}

fn is_uuid_v4(s: &str) -> bool {
    let c: Vec<char> = s.chars().collect();
    c.len() == 36
        && c.iter().enumerate().all(|(i, ch)| {
            if i == 8 || i == 13 || i == 18 || i == 23 {
                *ch == '-'
            } else {
                ch.is_ascii_digit() || ('a'..='f').contains(ch)
            }
        })
        && c[14] == '4'
        && "89ab".contains(c[19])
}

#[test]
fn fresh_ids_have_the_uuid_v4_shape() {
    for _ in 0..20 {
        let id = myterm::registry::new_id();
        assert!(is_uuid_v4(&id), "{}", id);
    }
}
