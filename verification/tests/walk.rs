use myterm::walk::{ListedEntry, TreeWalk, WalkNext};

fn visit(next: WalkNext) -> (String, String) {
    match next {
        WalkNext::Visit(s, t) => (s, t),
        _ => panic!("expected a visit"),
    }
}

#[test]
fn download_walk_goes_depth_first_in_listed_order() {
    let mut walk = TreeWalk::new(true, "/srv/dir".to_string(), "/tmp/dir".to_string());
    assert_eq!(visit(walk.next()), ("/srv/dir".to_string(), "/tmp/dir".to_string()));
    walk.enter_dir(
        "/srv/dir",
        "/tmp/dir",
        vec![ListedEntry::Item("/srv/dir/a".to_string()), ListedEntry::Item("/srv/dir/sub".to_string())],
    );
    assert_eq!(visit(walk.next()), ("/srv/dir/a".to_string(), "/tmp/dir/a".to_string()));
    walk.file_copied();
    assert_eq!(visit(walk.next()), ("/srv/dir/sub".to_string(), "/tmp/dir/sub".to_string()));
    walk.enter_dir("/srv/dir/sub", "/tmp/dir/sub", vec![ListedEntry::Item("/srv/dir/sub/b".to_string())]);
    assert_eq!(visit(walk.next()), ("/srv/dir/sub/b".to_string(), "/tmp/dir/sub/b".to_string()));
    walk.file_copied();
    assert!(walk.can_count());
    assert!(matches!(walk.next(), WalkNext::Done(2)));
    assert!(matches!(walk.next(), WalkNext::Done(2)));
}

#[test]
fn upload_walk_keeps_local_child_paths() {
    let mut walk = TreeWalk::new(false, "/home/u/d".to_string(), "/srv/d".to_string());
    assert_eq!(visit(walk.next()), ("/home/u/d".to_string(), "/srv/d".to_string()));
    walk.enter_dir(
        "/home/u/d",
        "/srv/d",
        vec![ListedEntry::Item("/home/u/d/x.txt".to_string()), ListedEntry::Unreadable("disk gone".to_string())],
    );
    assert_eq!(visit(walk.next()), ("/home/u/d/x.txt".to_string(), "/srv/d/x.txt".to_string()));
    walk.file_copied();
    match walk.next() {
        WalkNext::Fail(e) => assert_eq!(e, "Local read dir entry failed: disk gone"),
        _ => panic!("expected a failure"),
    }
}

#[test]
fn a_child_without_name_fails_the_walk() {
    let mut walk = TreeWalk::new(true, "/srv".to_string(), "/tmp".to_string());
    let _ = walk.next();
    walk.enter_dir("/srv", "/tmp", vec![ListedEntry::Item("/srv/..".to_string())]);
    match walk.next() {
        WalkNext::Fail(e) => assert_eq!(e, "Source path has no file name: /srv/.."),
        _ => panic!("expected a failure"),
    }
}

#[test]
fn an_item_whose_name_is_not_text_fails_the_walk() {
    let mut walk = TreeWalk::new(false, "/home/u/d".to_string(), "/srv/d".to_string());
    let _ = walk.next();
    walk.enter_dir("/home/u/d", "/srv/d", vec![ListedEntry::Nameless("/home/u/d/\u{fffd}".to_string())]);
    match walk.next() {
        WalkNext::Fail(e) => assert_eq!(e, "Source path has no file name: /home/u/d/\u{fffd}"),
        _ => panic!("expected a failure"),
    }
}
