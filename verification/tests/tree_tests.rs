use kenshi::app::SortMode;
use kenshi::tree::{scan_fits, DirNode, FsEntry};

fn file(name: &str, len: u64, modified: u128) -> FsEntry {
    FsEntry {
        name: name.to_string(),
        path: format!("/root/{}", name),
        is_symlink: false,
        is_dir: false,
        len,
        modified,
        listing: None,
    }
}

fn dir(name: &str, modified: u128, listing: Option<Vec<FsEntry>>) -> FsEntry {
    FsEntry {
        name: name.to_string(),
        path: format!("/root/{}", name),
        is_symlink: false,
        is_dir: true,
        len: 4096,
        modified,
        listing,
    }
}

fn names(n: &DirNode) -> Vec<String> {
    n.children.iter().map(|c| c.name.clone()).collect()
}

#[test]
fn scan_sums_sizes_counts_and_times() {
    let sub = dir("sub", 5, Some(vec![file("a.txt", 10, 7), file("b.txt", 30, 2)]));
    let root = dir("root", 1, Some(vec![file("c.bin", 25, 3), sub, dir("empty", 9, Some(vec![]))]));
    let node = DirNode::scan(&root);
    assert!(node.is_dir && node.readable);
    assert_eq!(node.size, 65);
    assert_eq!(node.file_count, 3);
    assert_eq!(node.modified, 9);
    assert_eq!(names(&node), vec!["sub", "c.bin", "empty"]);
    let sub = &node.children[0];
    assert_eq!(sub.size, 40);
    assert_eq!(sub.file_count, 2);
    assert_eq!(sub.modified, 7);
    assert_eq!(names(sub), vec!["b.txt", "a.txt"]);
    assert_eq!(node.children[2].size, 0);
    assert_eq!(node.children[2].file_count, 0);
}

#[test]
fn scan_does_not_follow_directory_links() {
    let mut link = dir("link", 4, Some(vec![file("big", 1000, 1)]));
    link.is_symlink = true;
    link.len = 12;
    let node = DirNode::scan(&dir("root", 0, Some(vec![link])));
    let l = &node.children[0];
    assert!(!l.is_dir);
    assert_eq!(l.size, 12);
    assert_eq!(l.file_count, 1);
    assert!(l.children.is_empty());
    assert_eq!(node.size, 12);
}

#[test]
fn scan_marks_unreadable_directories() {
    let node = DirNode::scan(&dir("root", 0, Some(vec![dir("locked", 3, None), file("x", 5, 1)])));
    let locked = node.children.iter().find(|c| c.name == "locked").unwrap();
    assert!(locked.is_dir);
    assert!(!locked.readable);
    assert_eq!(locked.size, 0);
    assert_eq!(locked.file_count, 0);
    assert_eq!(node.file_count, 1);
}

#[test]
fn scan_of_a_plain_file() {
    let node = DirNode::scan(&file("solo.rs", 77, 42));
    assert!(!node.is_dir);
    assert_eq!(node.size, 77);
    assert_eq!(node.file_count, 1);
    assert_eq!(node.modified, 42);
    assert_eq!(node.path, "/root/solo.rs");
}

#[test]
fn size_sort_is_stable() {
    let root = dir("root", 0, Some(vec![file("a", 5, 0), file("b", 9, 0), file("c", 5, 0), file("d", 9, 0)]));
    let mut node = DirNode::scan(&root);
    assert_eq!(names(&node), vec!["b", "d", "a", "c"]);
    node.sort_by_size();
    assert_eq!(names(&node), vec!["b", "d", "a", "c"]);
}

#[test]
fn name_sort_ignores_case_and_keeps_ties() {
    let root = dir("root", 0, Some(vec![file("b", 3, 0), file("A", 2, 0), file("a", 1, 0), file("Zed", 0, 0)]));
    let mut node = DirNode::scan(&root);
    assert_eq!(names(&node), vec!["b", "A", "a", "Zed"]);
    node.sort_by_name();
    assert_eq!(names(&node), vec!["A", "a", "b", "Zed"]);
}

#[test]
fn modified_sort_lists_newest_first() {
    let root = dir("root", 0, Some(vec![file("old", 3, 10), file("new", 2, 30), file("mid", 1, 20)]));
    let mut node = DirNode::scan(&root);
    node.sort_by_modified();
    assert_eq!(names(&node), vec!["new", "mid", "old"]);
    node.sort_by_size();
    assert_eq!(names(&node), vec!["old", "new", "mid"]);
}

#[test]
fn sorting_twice_changes_nothing() {
    let root = dir("root", 0, Some(vec![file("x", 1, 3), file("y", 1, 3), file("Y", 2, 1)]));
    let mut node = DirNode::scan(&root);
    node.sort_children(SortMode::Name);
    let once = names(&node);
    node.sort_children(SortMode::Name);
    assert_eq!(names(&node), once);
    assert_eq!(once, vec!["x", "Y", "y"]);
}

#[test]
fn directory_totals_its_entries() {
    let a = DirNode::file("a".to_string(), "/a".to_string(), 4, 100);
    let b = DirNode::unreadable_directory("b".to_string(), "/b".to_string(), 200);
    let c = DirNode::directory("c".to_string(), "/c".to_string(), 50, vec![]);
    let d = DirNode::directory("d".to_string(), "/d".to_string(), 10, vec![a, b, c]);
    assert_eq!(d.size, 4);
    assert_eq!(d.file_count, 1);
    assert_eq!(d.modified, 200);
    assert_eq!(names(&d), vec!["a", "b", "c"]);
}

#[test]
fn sort_at_touches_only_the_target() {
    let sub = dir("sub", 0, Some(vec![file("m", 1, 0), file("n", 2, 0)]));
    let root = dir("root", 0, Some(vec![sub, file("z", 1, 0), file("a", 1, 0)]));
    let mut node = DirNode::scan(&root);
    assert_eq!(names(&node), vec!["sub", "z", "a"]);
    node.sort_at(&vec![0], 0, SortMode::Name);
    assert_eq!(names(&node), vec!["sub", "z", "a"]);
    assert_eq!(names(&node.children[0]), vec!["m", "n"]);
}

#[test]
fn scan_fits_checks_the_totals() {
    let ok = dir("r", 0, Some(vec![file("a", u64::MAX - 1, 0), file("b", 1, 0)]));
    assert!(scan_fits(&ok));
    let over = dir("r", 0, Some(vec![file("a", u64::MAX, 0), file("b", 1, 0)]));
    assert!(!scan_fits(&over));
    let deep = dir("r", 0, Some(vec![dir("s", 0, Some(vec![file("a", u64::MAX, 0)])), file("b", 1, 0)]));
    assert!(!scan_fits(&deep));
    assert!(scan_fits(&file("x", u64::MAX, 0)));
    assert!(scan_fits(&dir("u", 0, None)));
}
