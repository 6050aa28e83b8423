use disk_usage::model::{DirEntry, Meta, NodeKind};
use disk_usage::order::{chars_before, comes_before, sort_entries, SortOrder};
use disk_usage::scan::{
    build_entries, get_home_dir, make_entry, resolve_target, scan, scan_directory,
    scan_directory_fast, Child, ScanError, ScanMode, Target,
};
use disk_usage::size::WalkItem;
use disk_usage::stamp::{from_epoch_offset, get_modified, Timestamp};

fn meta(kind: NodeKind, len: u64) -> Option<Meta> {
    Some(Meta { kind, len })
}

fn child(name: &str, kind: NodeKind, len: u64) -> Child {
    Child {
        name: String::from(name),
        path: format!("/tmp/a/{}", name),
        meta: meta(kind, len),
        walk: Vec::new(),
        children_count: None,
        modified: None,
    }
}

fn dir_child(name: &str, files: &[u64]) -> Child {
    let mut walk = vec![WalkItem { depth: 0, meta: meta(NodeKind::Directory, 4096) }];
    for len in files {
        walk.push(WalkItem { depth: 1, meta: meta(NodeKind::File, *len) });
    }
    Child {
        name: String::from(name),
        path: format!("/tmp/a/{}", name),
        meta: meta(NodeKind::Directory, 4096),
        walk,
        children_count: Some(files.len()),
        modified: None,
    }
}

fn target() -> Target {
    Target {
        path: String::from("/tmp/a"),
        exists: true,
        is_dir: true,
        parent: Some(String::from("/tmp")),
    }
}

fn entry(name: &str, size: u64) -> DirEntry {
    DirEntry {
        id: String::from(name),
        name: String::from(name),
        path: String::new(),
        size,
        is_dir: false,
        children_count: None,
        modified: None,
    }
}

fn names(entries: &[DirEntry]) -> Vec<String> {
    entries.iter().map(|e| e.name.clone()).collect()
}

#[test]
fn eager_scan_scenario() {
    let listing = Ok(vec![
        dir_child("b", &[50]),
        child("link", NodeKind::Symlink, 6),
        child("f", NodeKind::File, 100),
    ]);
    let r = scan_directory(&target(), &listing).unwrap();
    assert_eq!(r.path, "/tmp/a");
    assert_eq!(r.parent, Some(String::from("/tmp")));
    assert_eq!(r.total_size, 150);
    assert_eq!(names(&r.entries), vec!["f", "b"]);
    assert_eq!(r.entries[0].size, 100);
    assert!(!r.entries[0].is_dir);
    assert_eq!(r.entries[0].children_count, None);
    assert_eq!(r.entries[0].path, "/tmp/a/f");
    assert_eq!(r.entries[1].size, 50);
    assert!(r.entries[1].is_dir);
    assert_eq!(r.entries[1].children_count, Some(1));
    assert!(r.entries.iter().all(|e| e.name != "link"));
}

#[test]
fn eager_scan_is_largest_first_and_keeps_ties_in_order() {
    let listing = Ok(vec![
        child("one", NodeKind::File, 5),
        child("two", NodeKind::File, 9),
        child("three", NodeKind::File, 5),
        dir_child("four", &[4, 5]),
        child("five", NodeKind::File, 5),
    ]);
    let r = scan_directory(&target(), &listing).unwrap();
    assert_eq!(names(&r.entries), vec!["two", "four", "one", "three", "five"]);
    assert_eq!(r.total_size, 33);
    let sum: u64 = r.entries.iter().map(|e| e.size).sum();
    assert_eq!(r.total_size, sum);
}

#[test]
fn eager_scan_measures_directories_under_the_interactive_limits() {
    let mut deep = dir_child("deep", &[10]);
    deep.walk.push(WalkItem { depth: 4, meta: meta(NodeKind::File, 1000) });
    let r = scan_directory(&target(), &Ok(vec![deep])).unwrap();
    assert_eq!(r.entries[0].size, 10);
    assert_eq!(r.total_size, 10);
}

#[test]
fn deferred_scan_sorts_by_name_ignoring_case() {
    let listing = Ok(vec![
        child("banana", NodeKind::File, 3),
        dir_child("Cherry", &[500]),
        child("apple", NodeKind::File, 7),
        child("Banana", NodeKind::File, 1),
        child("link", NodeKind::Symlink, 1),
    ]);
    let r = scan_directory_fast(&target(), &listing).unwrap();
    assert_eq!(names(&r.entries), vec!["apple", "banana", "Banana", "Cherry"]);
    assert_eq!(r.entries[3].size, 0);
    assert!(r.entries[3].is_dir);
    assert_eq!(r.entries[3].children_count, Some(1));
    assert_eq!(r.entries[0].size, 7);
    assert_eq!(r.entries[1].size, 3);
    assert_eq!(r.entries[2].size, 1);
    assert_eq!(r.total_size, 11);
}

#[test]
fn a_child_that_cannot_be_inspected_is_left_out() {
    let mut gone = child("gone", NodeKind::File, 10);
    gone.meta = None;
    let listing = Ok(vec![gone, child("here", NodeKind::File, 2)]);
    let r = scan(&target(), &listing, ScanMode::Eager).unwrap();
    assert_eq!(names(&r.entries), vec!["here"]);
    assert_eq!(r.total_size, 2);
}

#[test]
fn an_empty_directory_lists_nothing() {
    let r = scan_directory(&target(), &Ok(vec![])).unwrap();
    assert!(r.entries.is_empty());
    assert_eq!(r.total_size, 0);
}

#[test]
fn a_root_has_no_parent() {
    let t = Target { path: String::from("/"), exists: true, is_dir: true, parent: None };
    let r = scan_directory_fast(&t, &Ok(vec![])).unwrap();
    assert_eq!(r.path, "/");
    assert_eq!(r.parent, None);
}

#[test]
fn a_missing_target_is_reported() {
    let t = Target { path: String::from("/nope"), exists: false, is_dir: false, parent: None };
    let e = scan_directory(&t, &Ok(vec![])).unwrap_err();
    assert!(matches!(&e, ScanError::NotFound { path } if path == "/nope"));
    assert_eq!(e.message(), "Path does not exist: /nope");
}

#[test]
fn a_file_target_is_reported() {
    let t = Target { path: String::from("/etc/hosts"), exists: true, is_dir: false, parent: None };
    let e = scan_directory_fast(&t, &Ok(vec![])).unwrap_err();
    assert!(matches!(&e, ScanError::NotADirectory { path } if path == "/etc/hosts"));
    assert_eq!(e.message(), "Path is not a directory: /etc/hosts");
}

#[test]
fn an_unreadable_target_is_reported_with_its_cause() {
    let e = scan_directory(&target(), &Err(String::from("Permission denied"))).unwrap_err();
    assert!(matches!(
        &e,
        ScanError::Unreadable { path, cause } if path == "/tmp/a" && cause == "Permission denied"
    ));
    assert_eq!(e.message(), "Cannot read directory /tmp/a: Permission denied");
}

#[test]
fn identity_tokens_are_fresh() {
    let c = child("f", NodeKind::File, 1);
    let a = make_entry(&c, ScanMode::Eager).unwrap();
    let b = make_entry(&c, ScanMode::Eager).unwrap();
    assert_eq!(a.id.chars().count(), 36);
    assert_eq!(b.id.chars().count(), 36);
    assert_ne!(a.id, b.id);
    assert_ne!(a.id, a.path);
}

#[test]
fn an_entry_carries_the_modification_time_to_the_minute() {
    let mut c = child("f", NodeKind::File, 1);
    c.modified = Some(Timestamp { secs: 1431648059, nanos: 999_999_999 });
    let e = make_entry(&c, ScanMode::Deferred).unwrap();
    assert_eq!(e.modified, Some(String::from("2015-05-15 00:00")));
}

#[test]
fn child_counts_belong_to_directories_only() {
    let mut f = child("f", NodeKind::File, 1);
    f.children_count = Some(3);
    assert_eq!(make_entry(&f, ScanMode::Eager).unwrap().children_count, None);
    let d = dir_child("d", &[1, 2]);
    assert_eq!(make_entry(&d, ScanMode::Deferred).unwrap().children_count, Some(2));
}

#[test]
fn build_entries_keeps_the_order_of_the_listing() {
    let children = vec![
        child("z", NodeKind::File, 1),
        child("l", NodeKind::Symlink, 1),
        child("a", NodeKind::File, 9),
    ];
    let out = build_entries(&children, ScanMode::Eager);
    assert_eq!(names(&out), vec!["z", "a"]);
}

#[test]
fn modified_text_has_minute_resolution() {
    assert_eq!(
        get_modified(Some(Timestamp { secs: 1431648000, nanos: 0 })),
        Some(String::from("2015-05-15 00:00"))
    );
    assert_eq!(
        get_modified(Some(Timestamp { secs: 1491137432, nanos: 5 })),
        Some(String::from("2017-04-02 12:50"))
    );
    assert_eq!(get_modified(Some(Timestamp { secs: 0, nanos: 0 })), Some(String::from("1970-01-01 00:00")));
}

#[test]
fn an_unreadable_or_unrepresentable_time_is_absent() {
    assert_eq!(get_modified(None), None);
    assert_eq!(get_modified(Some(Timestamp { secs: i64::MAX, nanos: 0 })), None);
    assert_eq!(get_modified(Some(Timestamp { secs: 0, nanos: 2_000_000_000 })), None);
}

#[test]
fn sort_by_size_is_stable() {
    let v = vec![entry("a", 1), entry("b", 3), entry("c", 1), entry("d", 3), entry("e", 2)];
    let out = sort_entries(v, SortOrder::SizeDescending);
    assert_eq!(names(&out), vec!["b", "d", "e", "a", "c"]);
}

#[test]
fn sort_by_name_ignores_case_and_is_stable() {
    let v = vec![entry("b", 1), entry("B", 2), entry("a", 3), entry("C", 4), entry("A", 5)];
    let out = sort_entries(v, SortOrder::NameAscending);
    assert_eq!(names(&out), vec!["a", "A", "b", "B", "C"]);
    let sizes: Vec<u64> = out.iter().map(|e| e.size).collect();
    assert_eq!(sizes, vec![3, 5, 1, 2, 4]);
}

#[test]
fn comes_before_compares_lower_cased_names() {
    let upper = entry("B", 0);
    let lower = entry("a", 0);
    assert!(comes_before(SortOrder::NameAscending, &lower, &upper));
    assert!(!comes_before(SortOrder::NameAscending, &upper, &lower));
    assert!(!comes_before(SortOrder::NameAscending, &entry("ab", 0), &entry("AB", 0)));
    assert!(comes_before(SortOrder::NameAscending, &entry("ab", 0), &entry("ABC", 0)));
    assert!(comes_before(SortOrder::SizeDescending, &entry("x", 2), &entry("y", 1)));
    assert!(!comes_before(SortOrder::SizeDescending, &entry("x", 2), &entry("y", 2)));
}

#[test]
fn chars_before_is_dictionary_order() {
    let v = |s: &str| s.chars().collect::<Vec<char>>();
    assert!(chars_before(&v(""), &v("a")));
    assert!(!chars_before(&v(""), &v("")));
    assert!(!chars_before(&v("a"), &v("")));
    assert!(chars_before(&v("abc"), &v("abd")));
    assert!(chars_before(&v("ab"), &v("abc")));
    assert!(!chars_before(&v("b"), &v("abc")));
    assert!(!chars_before(&v("abc"), &v("abc")));
}

#[test]
fn the_target_defaults_to_home_and_then_to_the_root() {
    assert_eq!(resolve_target(Some(String::from("/x")), Some(String::from("/home/u"))), "/x");
    assert_eq!(resolve_target(None, Some(String::from("/home/u"))), "/home/u");
    assert_eq!(resolve_target(None, None), "/");
    assert_eq!(get_home_dir(None), "/");
    assert_eq!(get_home_dir(Some(String::from("/home/u"))), "/home/u");
}

#[test]
fn a_moment_after_the_epoch_keeps_its_seconds() {
    assert_eq!(from_epoch_offset(true, 90, 5), Some(Timestamp { secs: 90, nanos: 5 }));
    assert_eq!(from_epoch_offset(true, 0, 0), Some(Timestamp { secs: 0, nanos: 0 }));
    assert_eq!(
        from_epoch_offset(true, i64::MAX as u64, 999_999_999),
        Some(Timestamp { secs: i64::MAX, nanos: 999_999_999 })
    );
    assert_eq!(from_epoch_offset(true, i64::MAX as u64 + 1, 0), None);
}

#[test]
fn a_moment_before_the_epoch_rounds_its_seconds_down() {
    assert_eq!(from_epoch_offset(false, 90, 0), Some(Timestamp { secs: -90, nanos: 0 }));
    assert_eq!(
        from_epoch_offset(false, 1, 250_000_000),
        Some(Timestamp { secs: -2, nanos: 750_000_000 })
    );
    assert_eq!(from_epoch_offset(false, 0, 1), Some(Timestamp { secs: -1, nanos: 999_999_999 }));
    assert_eq!(
        from_epoch_offset(false, 1u64 << 63, 0),
        Some(Timestamp { secs: i64::MIN, nanos: 0 })
    );
    assert_eq!(from_epoch_offset(false, 1u64 << 63, 1), None);
    assert_eq!(from_epoch_offset(false, u64::MAX, 0), None);
}

#[test]
fn nanoseconds_must_be_part_of_a_second() {
    assert_eq!(from_epoch_offset(true, 1, 1_000_000_000), None);
    assert_eq!(from_epoch_offset(false, 1, 1_000_000_000), None);
}

#[test]
fn a_time_before_the_epoch_is_written_too() {
    let stamp = from_epoch_offset(false, 60, 1);
    assert_eq!(get_modified(stamp), Some(String::from("1969-12-31 23:58")));
}

#[test]
fn a_symbolic_link_never_becomes_an_entry() {
    let l = child("link", NodeKind::Symlink, 6);
    assert!(make_entry(&l, ScanMode::Eager).is_none());
    assert!(make_entry(&l, ScanMode::Deferred).is_none());
    let mut gone = child("gone", NodeKind::File, 6);
    gone.meta = None;
    assert!(make_entry(&gone, ScanMode::Eager).is_none());
    let r = scan_directory_fast(&target(), &Ok(vec![l])).unwrap();
    assert!(r.entries.is_empty());
    assert_eq!(r.total_size, 0);
}

#[test]
fn anything_that_is_no_directory_keeps_its_length_in_a_deferred_scan() {
    let other = child("socket", NodeKind::Other, 12);
    let e = make_entry(&other, ScanMode::Deferred).unwrap();
    assert_eq!(e.size, 12);
    assert!(!e.is_dir);
}
