use myterm::models::SftpEntry;
use myterm::sftp::{
    copy_file_failure, download_child, download_target, ensure_dir_outcome, file_copy_plan,
    list_dir_entries, list_local_entries, local_entry, normalize_path, parse_chmod_mode,
    permissions_text, read_dir_entry_failure, remote_child_path, remote_entry, removable_child,
    source_entry_name, upload_child, upload_target, walk_failure, LocalStat, RemoteStat, WalkStep,
};

#[test]
fn parses_three_digit_octal_mode() {
    assert_eq!(parse_chmod_mode("755").expect("mode"), 0o755);
    assert_eq!(parse_chmod_mode("600").expect("mode"), 0o600);
}

#[test]
fn parses_four_digit_octal_mode() {
    assert_eq!(parse_chmod_mode("0644").expect("mode"), 0o644);
    assert_eq!(parse_chmod_mode("1755").expect("mode"), 0o1755);
}

#[test]
fn rejects_invalid_chmod_modes() {
    assert!(parse_chmod_mode("").is_err());
    assert!(parse_chmod_mode("88").is_err());
    assert!(parse_chmod_mode("10000").is_err());
    assert!(parse_chmod_mode("8888").is_err());
    assert!(parse_chmod_mode("rwx").is_err());
}

#[test]
fn chmod_mode_errors_name_the_rule() {
    assert_eq!(parse_chmod_mode("88").err().unwrap(), "Mode must be a 3 or 4 digit octal value");
    assert_eq!(parse_chmod_mode("8888").err().unwrap(), "Mode must contain only octal digits 0-7");
    assert_eq!(parse_chmod_mode(" 700 ").unwrap(), 0o700);
    assert_eq!(parse_chmod_mode("7777").unwrap(), 0o7777);
    assert!(parse_chmod_mode("+755").is_err());
}

#[test]
fn joins_remote_child_paths_without_duplicate_slashes() {
    assert_eq!(remote_child_path("/", "app.log"), "/app.log");
    assert_eq!(remote_child_path("/var/log", "app.log"), "/var/log/app.log");
    assert_eq!(remote_child_path("/var/log/", "app.log"), "/var/log/app.log");
}

#[test]
fn derives_copy_root_name_from_source_path() {
    assert_eq!(source_entry_name("/home/deploy/releases").expect("name"), "releases");
    assert_eq!(source_entry_name("/home/deploy/app.tar.gz").expect("name"), "app.tar.gz");
    assert!(source_entry_name("/").is_err());
}

#[test]
fn source_name_errors_and_edge_paths() {
    assert_eq!(source_entry_name("/").err().unwrap(), "Source path has no file name: /");
    assert_eq!(source_entry_name("dir/sub/").unwrap(), "sub");
    assert!(source_entry_name("a/..").is_err());
    assert_eq!(source_entry_name("a/.").unwrap(), "a");
}

#[test]
fn permission_texts() {
    assert_eq!(permissions_text(0o100644), "644");
    assert_eq!(permissions_text(0o40755), "755");
    assert_eq!(permissions_text(0), "0");
}

#[test]
fn blank_local_path_is_root() {
    assert_eq!(normalize_path("  "), "/");
    assert_eq!(normalize_path("/tmp"), "/tmp");
}

fn stat(path: &str, is_dir: bool) -> RemoteStat {
    RemoteStat { path: path.to_string(), is_dir, size: Some(10), perm: Some(0o100640), mtime: Some(0) }
}

#[test]
fn remote_entries_from_stats() {
    let e = remote_entry(&stat("/srv/a.txt", false)).expect("entry");
    assert_eq!(e.name, "a.txt");
    assert_eq!(e.path, "/srv/a.txt");
    assert_eq!(e.size, 10);
    assert_eq!(e.permissions, "640");
    assert_eq!(e.modified, "1970-01-01 00:00:00");
    assert_eq!(remote_entry(&stat("/srv/..", true)).expect("entry").name, "");
    let bare = remote_entry(&RemoteStat { path: "/srv/b".to_string(), is_dir: false, size: None, perm: None, mtime: None }).unwrap();
    assert_eq!(bare.size, 0);
    assert_eq!(bare.permissions, "0");
    assert_eq!(bare.modified, "");
}

#[test]
fn remote_listing_puts_directories_first_then_names() {
    let listed = list_dir_entries(vec![
        stat("/srv/b.txt", false),
        stat("/srv/.", true),
        stat("/srv/zeta", true),
        stat("/srv/a.txt", false),
        stat("/srv/alpha", true),
        stat("/srv/B.txt", false),
    ]);
    let names: Vec<&str> = listed.iter().map(|e| e.name.as_str()).collect();
    assert_eq!(names, vec!["alpha", "srv", "zeta", "B.txt", "a.txt", "b.txt"]);
}

fn entry(name: &str, is_dir: bool) -> SftpEntry {
    SftpEntry {
        name: name.to_string(),
        path: format!("/home/{}", name),
        is_dir,
        size: 0,
        permissions: "644".to_string(),
        modified: String::new(),
    }
}

#[test]
fn local_listing_ignores_letter_case() {
    let listed = list_local_entries(vec![entry("b.txt", false), entry("Docs", true), entry("A.txt", false), entry("apps", true)]);
    let names: Vec<&str> = listed.iter().map(|e| e.name.as_str()).collect();
    assert_eq!(names, vec!["apps", "Docs", "A.txt", "b.txt"]);
}

#[test]
fn local_entries_from_stats() {
    let dir = local_entry(LocalStat { path: "/home/me".to_string(), is_dir: true, len: 4096, mode: 0o40755, modified: "t".to_string() });
    assert_eq!(dir.name, "me");
    assert_eq!(dir.size, 0);
    assert_eq!(dir.permissions, "755");
    let root = local_entry(LocalStat { path: "/".to_string(), is_dir: true, len: 0, mode: 0o755, modified: String::new() });
    assert_eq!(root.name, "/");
    let file = local_entry(LocalStat { path: "/tmp/x".to_string(), is_dir: false, len: 12, mode: 0o600, modified: String::new() });
    assert_eq!(file.size, 12);
}

#[test]
fn copy_targets() {
    assert_eq!(download_target("/srv/app", "/tmp").unwrap(), "/tmp/app");
    assert_eq!(upload_target("/home/me/app", "/srv/").unwrap(), "/srv/app");
    assert!(download_target("/", "/tmp").is_err());
    assert_eq!(
        download_child("/srv/app", "/tmp/app", "/srv/app/x.log").unwrap(),
        Some(("/srv/app/x.log".to_string(), "/tmp/app/x.log".to_string()))
    );
    assert_eq!(download_child("/srv/app", "/tmp/app", "/srv/app/..").err().unwrap(), "Source path has no file name: /srv/app/..");
    assert_eq!(upload_child("/srv", "/home/me/y").unwrap(), "/srv/y");
    assert!(removable_child("/srv/app/x"));
    assert!(!removable_child("/srv/app/.."));
}

#[test]
fn remote_dir_creation_outcome() {
    assert!(ensure_dir_outcome("/srv/a", None, false).is_ok());
    assert!(ensure_dir_outcome("/srv/a", Some("exists".to_string()), true).is_ok());
    assert_eq!(
        ensure_dir_outcome("/srv/a", Some("denied".to_string()), false).err().unwrap(),
        "Create remote dir failed for /srv/a: denied"
    );
}

#[test]
fn equal_names_keep_their_order() {
    let listed = list_local_entries(vec![entry("a.txt", false), entry("A.txt", false)]);
    let names: Vec<&str> = listed.iter().map(|e| e.name.as_str()).collect();
    assert_eq!(names, vec!["a.txt", "A.txt"]);
    let listed = list_local_entries(vec![entry("A.txt", false), entry("a.txt", false)]);
    let names: Vec<&str> = listed.iter().map(|e| e.name.as_str()).collect();
    assert_eq!(names, vec!["A.txt", "a.txt"]);
}

#[test]
fn walk_failure_messages() {
    assert_eq!(
        walk_failure(WalkStep::RemoteStat, "/srv/a", "no such file"),
        "Remote stat failed for /srv/a: no such file"
    );
    assert_eq!(
        walk_failure(WalkStep::CreateLocalParent, "/tmp/x", "denied"),
        "Create local parent failed for /tmp/x: denied"
    );
    assert_eq!(
        walk_failure(WalkStep::FlushRemoteFile, "/r/f", "eof"),
        "Flush remote file failed for /r/f: eof"
    );
    assert_eq!(walk_failure(WalkStep::RemoveDir, "/d", "busy"), "Remove dir failed for /d: busy");
    assert_eq!(
        copy_file_failure(true, "/r/a", "/l/a", "Transfer cancelled"),
        "Copy remote file failed from /r/a to /l/a: Transfer cancelled"
    );
    assert_eq!(
        copy_file_failure(false, "/l/a", "/r/a", "x"),
        "Copy local file failed from /l/a to /r/a: x"
    );
    assert_eq!(read_dir_entry_failure("gone"), "Local read dir entry failed: gone");
}

#[test]
fn file_copy_plan_takes_size_and_name() {
    assert_eq!(file_copy_plan("/srv/data.bin", Some(42)), Ok((42, "data.bin".to_string())));
    assert_eq!(file_copy_plan("/srv/data.bin", None), Ok((0, "data.bin".to_string())));
    assert_eq!(
        file_copy_plan("/", Some(1)),
        Err("Source path has no file name: /".to_string())
    );
}
