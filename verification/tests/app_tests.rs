use kenshi::app::{cancels_scan, App, BottomPanel, Key, Outcome, SortMode, VIEW_ANIM_MS};
use kenshi::tree::{DirNode, FsEntry};

fn file(name: &str, len: u64, modified: u128) -> FsEntry {
    FsEntry {
        name: name.to_string(),
        path: name.to_string(),
        is_symlink: false,
        is_dir: false,
        len,
        modified,
        listing: None,
    }
}

fn dir(name: &str, listing: Vec<FsEntry>) -> FsEntry {
    FsEntry {
        name: name.to_string(),
        path: name.to_string(),
        is_symlink: false,
        is_dir: true,
        len: 0,
        modified: 0,
        listing: Some(listing),
    }
}

// root: [docs (dir, 30), big.bin (20), a.txt (5)]; docs: [z.md (20), b.md (10)]
fn sample() -> App {
    let docs = dir("docs", vec![file("b.md", 10, 2), file("z.md", 20, 1)]);
    let root = dir("home", vec![file("a.txt", 5, 9), docs, file("big.bin", 20, 4)]);
    App::new(DirNode::scan(&root))
}

fn names(app: &App) -> Vec<String> {
    app.current_node().children.iter().map(|c| c.name.clone()).collect()
}

#[test]
fn new_app_starts_at_the_top() {
    let app = sample();
    assert_eq!(app.selected, 0);
    assert!(app.nav_stack.is_empty());
    assert_eq!(app.sort_mode, SortMode::Size);
    assert_eq!(app.bottom_panel, BottomPanel::Treemap);
    assert!(app.status.is_none());
    assert_eq!(app.anim.duration_ms(), VIEW_ANIM_MS);
    assert_eq!(names(&app), vec!["docs", "big.bin", "a.txt"]);
    assert_eq!(app.breadcrumb(), "home");
}

#[test]
fn moving_stops_at_the_ends() {
    let mut app = sample();
    app.move_up();
    assert_eq!(app.selected, 0);
    app.move_down();
    app.move_down();
    app.move_down();
    assert_eq!(app.selected, 2);
    app.move_up();
    assert_eq!(app.selected, 1);
}

#[test]
fn paging_clamps_to_the_rows() {
    let mut app = sample();
    app.page_down(10);
    assert_eq!(app.selected, 2);
    app.page_up(1);
    assert_eq!(app.selected, 1);
    app.page_up(10);
    assert_eq!(app.selected, 0);
    app.page_down(1);
    assert_eq!(app.selected, 1);
}

#[test]
fn entering_a_file_does_nothing() {
    let mut app = sample();
    app.move_down();
    app.enter();
    assert!(app.nav_stack.is_empty());
    assert_eq!(app.selected, 1);
}

#[test]
fn back_returns_to_the_directory_entered() {
    let mut app = sample();
    app.enter();
    assert_eq!(app.nav_stack, vec![0]);
    assert_eq!(app.selected, 0);
    assert_eq!(names(&app), vec!["z.md", "b.md"]);
    assert_eq!(app.breadcrumb(), "home / docs");
    app.move_down();
    app.back();
    assert!(app.nav_stack.is_empty());
    assert_eq!(app.selected, 0);
    app.back();
    assert!(app.nav_stack.is_empty());
    assert_eq!(app.breadcrumb(), "home");
}

#[test]
fn sort_cycles_and_relists_the_current_directory() {
    let mut app = sample();
    app.move_down();
    app.toggle_sort();
    assert_eq!(app.sort_mode, SortMode::Name);
    assert_eq!(app.selected, 0);
    assert_eq!(names(&app), vec!["a.txt", "big.bin", "docs"]);
    app.toggle_sort();
    assert_eq!(app.sort_mode, SortMode::Modified);
    assert_eq!(names(&app), vec!["a.txt", "big.bin", "docs"]);
    app.toggle_sort();
    assert_eq!(app.sort_mode, SortMode::Size);
    assert_eq!(names(&app), vec!["docs", "big.bin", "a.txt"]);
}

#[test]
fn sorting_inside_a_directory_leaves_the_parent_alone() {
    let mut app = sample();
    app.enter();
    app.toggle_sort();
    assert_eq!(names(&app), vec!["b.md", "z.md"]);
    app.back();
    assert_eq!(names(&app), vec!["docs", "big.bin", "a.txt"]);
}

#[test]
fn panel_switch_twice_is_back_to_the_map() {
    let mut app = sample();
    app.toggle_bottom_panel();
    assert_eq!(app.bottom_panel, BottomPanel::Types);
    app.toggle_bottom_panel();
    assert_eq!(app.bottom_panel, BottomPanel::Treemap);
}

#[test]
fn keys_drive_the_browser() {
    let mut app = sample();
    assert_eq!(app.handle_key(Key::Char('j')), Outcome::Continue);
    assert_eq!(app.selected, 1);
    assert_eq!(app.handle_key(Key::Up), Outcome::Continue);
    assert_eq!(app.selected, 0);
    assert_eq!(app.handle_key(Key::Enter), Outcome::Continue);
    assert_eq!(app.nav_stack, vec![0]);
    assert_eq!(app.handle_key(Key::Char('h')), Outcome::Continue);
    assert!(app.nav_stack.is_empty());
    assert_eq!(app.handle_key(Key::PageDown), Outcome::Continue);
    assert_eq!(app.selected, 2);
    assert_eq!(app.handle_key(Key::PageUp), Outcome::Continue);
    assert_eq!(app.selected, 0);
    assert_eq!(app.handle_key(Key::Char('s')), Outcome::Continue);
    assert_eq!(app.sort_mode, SortMode::Name);
    assert_eq!(app.handle_key(Key::Tab), Outcome::Continue);
    assert_eq!(app.bottom_panel, BottomPanel::Types);
    assert_eq!(app.handle_key(Key::Char('x')), Outcome::Continue);
    assert_eq!(app.handle_key(Key::Char('r')), Outcome::Rescan);
    assert_eq!(app.status.as_deref(), Some("rescanning..."));
    assert_eq!(app.sort_mode, SortMode::Name);
    assert_eq!(app.bottom_panel, BottomPanel::Types);
    assert_eq!(app.handle_key(Key::Esc), Outcome::Quit);
    assert_eq!(app.handle_key(Key::Char('q')), Outcome::Quit);
}

#[test]
fn only_q_and_escape_cancel_a_scan() {
    assert!(cancels_scan(Key::Char('q')));
    assert!(cancels_scan(Key::Esc));
    assert!(!cancels_scan(Key::Char('Q')));
    assert!(!cancels_scan(Key::Enter));
}

#[test]
fn empty_directory_has_nothing_to_select() {
    let mut app = App::new(DirNode::scan(&dir("void", vec![])));
    app.move_down();
    app.page_down(10);
    app.enter();
    assert_eq!(app.selected, 0);
    assert!(app.nav_stack.is_empty());
}
