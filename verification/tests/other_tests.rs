use kenshi::anim::{Animation, Pulse};
use kenshi::breakdown::{breakdown_fits, legend_rows, LEGEND_ROWS};
use kenshi::cache::{cache_file_for, cache_file_name, CachedNode};
use kenshi::colors::{color_for_entry, color_for_extension, dir_color, extension_of, is_light, Rgb};
use kenshi::heuristics::{match_category, reclaimable_bytes, scan, Category};
use kenshi::labels::{
    age_at, age_label, empty_listing_message, file_count_label, footer_text, header_text,
    header_title, map_label, size_column, usage_bar,
};
use kenshi::app::{BottomPanel, SortMode};
use kenshi::text::{format_size, pad_left, to_decimal, to_hex, to_lowercase, truncate};
use kenshi::tree::{DirNode, FsEntry};
use std::path::PathBuf;

fn file(name: &str, len: u64) -> FsEntry {
    FsEntry {
        name: name.to_string(),
        path: format!("p/{}", name),
        is_symlink: false,
        is_dir: false,
        len,
        modified: 0,
        listing: None,
    }
}

fn dir(name: &str, listing: Vec<FsEntry>) -> FsEntry {
    FsEntry {
        name: name.to_string(),
        path: format!("p/{}", name),
        is_symlink: false,
        is_dir: true,
        len: 0,
        modified: 0,
        listing: Some(listing),
    }
}

#[test]
fn cleanup_scan_stops_at_matching_directories() {
    let target = dir("Target", vec![dir("debug", vec![file("x.o", 100)]), dir("build", vec![file("y", 1)])]);
    let git = dir(".git", vec![file("pack", 40)]);
    let src = dir("src", vec![dir("node_modules", vec![file("lib.js", 7)]), file("main.rs", 3)]);
    let root = DirNode::scan(&dir("proj", vec![target, git, src, file("logs", 9)]));
    let findings = scan(&root);
    let mut found: Vec<(String, Category, u64, u64)> =
        findings.iter().map(|f| (f.name.clone(), f.category, f.size, f.file_count)).collect();
    found.sort_by(|a, b| a.0.cmp(&b.0));
    assert_eq!(
        found,
        vec![
            (".git".to_string(), Category::VcsMetadata, 40, 1),
            ("Target".to_string(), Category::BuildArtifact, 101, 2),
            ("node_modules".to_string(), Category::PackageCache, 7, 1),
        ]
    );
    assert_eq!(reclaimable_bytes(&findings), 108);
    assert_eq!(findings.iter().find(|f| f.name == "Target").unwrap().path, "p/Target");
}

#[test]
fn categories_match_without_case() {
    assert_eq!(match_category("NODE_MODULES"), Some(Category::PackageCache));
    assert_eq!(match_category("Temp"), Some(Category::TempFiles));
    assert_eq!(match_category("CacheStorage"), Some(Category::BrowserCache));
    assert_eq!(match_category("logs"), Some(Category::Logs));
    assert_eq!(match_category("log"), None);
    assert_eq!(match_category(""), None);
    assert_eq!(Category::VcsMetadata.label(), "VCS metadata");
    assert_eq!(Category::Logs.description(), "Log output, usually safe to delete");
    assert_eq!(Category::BuildArtifact.label(), "Build artifacts");
}

#[test]
fn reclaimable_of_nothing_is_zero() {
    assert_eq!(reclaimable_bytes(&[]), 0);
}

#[test]
fn extensions_are_lowercased_and_bounded() {
    assert_eq!(extension_of("Movie.MKV"), "mkv");
    assert_eq!(extension_of("archive.tar.gz"), "gz");
    assert_eq!(extension_of("README"), "(none)");
    assert_eq!(extension_of("trailing."), "(none)");
    assert_eq!(extension_of(".bashrc"), "bashrc");
    assert_eq!(extension_of("x.abcdefgh"), "abcdefgh");
    assert_eq!(extension_of("x.abcdefghi"), "(none)");
    assert_eq!(extension_of("x.éééé"), "éééé");
    assert_eq!(extension_of("x.ééééé"), "(none)");
}

fn djb2(s: &str) -> u32 {
    s.bytes().fold(5381u32, |h, b| h.wrapping_mul(33).wrapping_add(b as u32))
}

#[test]
fn extension_colors() {
    assert_eq!(color_for_extension("mp4"), Rgb { r: 224, g: 108, b: 117 });
    assert_eq!(color_for_extension("flac"), Rgb { r: 198, g: 120, b: 221 });
    assert_eq!(color_for_extension("png"), Rgb { r: 97, g: 175, b: 239 });
    assert_eq!(color_for_extension("zst"), Rgb { r: 209, g: 154, b: 102 });
    assert_eq!(color_for_extension("md"), Rgb { r: 152, g: 195, b: 121 });
    assert_eq!(color_for_extension("rs"), Rgb { r: 229, g: 192, b: 123 });
    assert_eq!(color_for_extension("dylib"), Rgb { r: 86, g: 182, b: 194 });
    assert_eq!(color_for_extension("lock"), Rgb { r: 171, g: 178, b: 191 });
    assert_eq!(color_for_extension("(none)"), Rgb { r: 140, g: 140, b: 140 });
    let fallback = [
        Rgb { r: 224, g: 108, b: 117 },
        Rgb { r: 97, g: 175, b: 239 },
        Rgb { r: 152, g: 195, b: 121 },
        Rgb { r: 209, g: 154, b: 102 },
        Rgb { r: 198, g: 120, b: 221 },
        Rgb { r: 86, g: 182, b: 194 },
    ];
    for ext in ["foo", "qux", "dat", "iso", "ü", "weird"] {
        assert_eq!(color_for_extension(ext), fallback[(djb2(ext) as usize) % 6], "{}", ext);
    }
    assert_eq!(color_for_entry("photos", true), dir_color());
    assert_eq!(color_for_entry("a.PNG", false), Rgb { r: 97, g: 175, b: 239 });
    assert_eq!(color_for_entry("Makefile", false), Rgb { r: 140, g: 140, b: 140 });
}

#[test]
fn lightness() {
    assert!(is_light(Rgb { r: 229, g: 192, b: 123 }));
    assert!(is_light(Rgb { r: 86, g: 182, b: 194 }));
    assert!(!is_light(Rgb { r: 30, g: 30, b: 30 }));
    assert!(is_light(Rgb { r: 255, g: 255, b: 255 }));
}

#[test]
fn numbers_and_padding() {
    assert_eq!(to_decimal(0), "0");
    assert_eq!(to_decimal(1234567890), "1234567890");
    assert_eq!(to_decimal(u64::MAX), u64::MAX.to_string());
    assert_eq!(to_hex(0), "0");
    assert_eq!(to_hex(255), "ff");
    assert_eq!(to_hex(u64::MAX), "ffffffffffffffff");
    assert_eq!(pad_left("ab", 5), "   ab");
    assert_eq!(pad_left("abcdef", 3), "abcdef");
    assert_eq!(to_lowercase("ÀbC"), "àbc");
}

#[test]
fn truncation() {
    assert_eq!(truncate("hello", 0), "");
    assert_eq!(truncate("hello", 5), "hello");
    assert_eq!(truncate("hello", 4), "hel…");
    assert_eq!(truncate("hello", 1), "…");
    assert_eq!(truncate("héllo wörld", 7), "héllo …");
}

#[test]
fn sizes_in_si_units() {
    assert_eq!(format_size(1_000_000), "1 MB");
    assert_eq!(format_size(0), "0 B");
    assert_eq!(size_column(1_000_000), "      1 MB ");
}

#[test]
fn ages() {
    assert_eq!(age_label(0), "just now");
    assert_eq!(age_label(59), "just now");
    assert_eq!(age_label(60), "1m ago");
    assert_eq!(age_label(3599), "59m ago");
    assert_eq!(age_label(3600), "1h ago");
    assert_eq!(age_label(86399), "23h ago");
    assert_eq!(age_label(86400 * 3), "3d ago");
    assert_eq!(age_label(86400 * 30), "1mo ago");
    assert_eq!(age_label(86400 * 364), "12mo ago");
    assert_eq!(age_label(86400 * 365 * 2), "2y ago");
    let s = 1_000_000_000u128;
    assert_eq!(age_at(10 * s, 130 * s), "2m ago");
    assert_eq!(age_at(130 * s, 10 * s), "just now");
}

#[test]
fn header_and_footer_text() {
    assert_eq!(header_title(SortMode::Name, BottomPanel::Types), " Kenshi — sorted by name — panel: types ");
    assert_eq!(header_title(SortMode::Size, BottomPanel::Treemap), " Kenshi — sorted by size — panel: map ");
    assert_eq!(header_text("home / docs", 12, 1_000_000), " home / docs    12 item(s)    1 MB total ");
    let help = "↑/↓ move · →/Enter open · ←/Backspace up · s sort · Tab/t panel · r rescan · q quit";
    assert_eq!(footer_text(&None), help);
    assert_eq!(footer_text(&Some("rescanning...".to_string())), format!("{}   |   rescanning...", help));
    assert_eq!(empty_listing_message(true), "(empty directory)");
    assert_eq!(empty_listing_message(false), "(permission denied)");
    assert_eq!(file_count_label(3), "3 file(s)");
}

#[test]
fn treemap_cell_labels() {
    assert_eq!(map_label("target", 1_000_000, 10, 2), "target\n1 MB");
    assert_eq!(map_label("node_modules", 1_000_000, 5, 3), "node…\n1 MB");
    assert_eq!(map_label("target", 1_000_000, 3, 1), "ta…");
    assert_eq!(map_label("target", 1_000_000, 2, 5), "");
    assert_eq!(map_label("target", 1_000_000, 10, 0), "");
}

#[test]
fn usage_bars() {
    assert_eq!(usage_bar(0), "------------------");
    assert_eq!(usage_bar(5), "#####-------------");
    assert_eq!(usage_bar(40), "##################");
}

#[test]
fn cache_round_trip_keeps_the_tree_to_the_second() {
    let mut root = DirNode::scan(&dir("r", vec![file("a", 3), dir("d", vec![file("b", 4)])]));
    root.modified = 5_700_000_000;
    root.children[0].children[0].modified = 1_999_999_999;
    let cached = CachedNode::from_node(&root);
    assert_eq!(cached.modified_secs, 5);
    assert_eq!(cached.children[0].children[0].modified_secs, 1);
    let back = cached.into_dir_node();
    assert_eq!(back.modified, 5_000_000_000);
    assert_eq!(back.size, root.size);
    assert_eq!(back.file_count, 2);
    assert_eq!(back.children.len(), 2);
    assert_eq!(back.children[0].children[0].name, "b");
    assert_eq!(back.children[0].children[0].modified, 1_000_000_000);
    assert_eq!(back.children[0].path, "p/d");
}

#[test]
fn cache_file_names() {
    assert_eq!(cache_file_name(0x1f), "1f.cache");
    assert_eq!(cache_file_name(0), "0.cache");
    let a = cache_file_for(&PathBuf::from("/home/me"));
    assert_eq!(a, cache_file_for(&PathBuf::from("/home/me")));
    assert!(a.ends_with(".cache"));
    assert_ne!(a, cache_file_for(&PathBuf::from("/home/you")));
}

#[test]
fn breakdown_groups_files_by_extension() {
    let root = DirNode::scan(&dir(
        "r",
        vec![
            file("a.RS", 10),
            dir("sub", vec![file("b.rs", 5), file("c.md", 30), file("README", 2)]),
            file("d.md", 1),
            file("e.txt", 15),
        ],
    ));
    let rows = root.extension_breakdown();
    let got: Vec<(String, u64, u64)> = rows.iter().map(|r| (r.ext.clone(), r.size, r.files)).collect();
    assert_eq!(
        got,
        vec![
            ("md".to_string(), 31, 2),
            ("rs".to_string(), 15, 2),
            ("txt".to_string(), 15, 1),
            ("(none)".to_string(), 2, 1),
        ]
    );
    assert_eq!(got.iter().map(|r| r.1).sum::<u64>(), root.size);
    assert_eq!(got.iter().map(|r| r.2).sum::<u64>(), root.file_count);
    let legend = legend_rows(&rows, 2);
    let got: Vec<(String, u64, u64)> = legend.iter().map(|r| (r.ext.clone(), r.size, r.files)).collect();
    assert_eq!(
        got,
        vec![("md".to_string(), 31, 2), ("rs".to_string(), 15, 2), ("other".to_string(), 17, 2)]
    );
    assert_eq!(legend_rows(&rows, LEGEND_ROWS).len(), 4);
}

#[test]
fn animation_lengths() {
    let a = Animation::started(0);
    assert_eq!(a.duration_ms(), 1);
    let b = Animation::started(380);
    assert_eq!(b.duration_ms(), 380);
    assert!(!b.is_done_after(379_999_999));
    assert!(b.is_done_after(380_000_000));
    assert!(!b.is_done());
    let p = Pulse::new();
    let _ = p.elapsed_nanos();
}

#[test]
fn breakdown_fits_checks_the_totals() {
    let small = DirNode::scan(&dir("r", vec![file("a.rs", 10), file("b.rs", 5)]));
    assert!(breakdown_fits(&small));
    let mut big = small;
    big.children[0].size = u64::MAX;
    assert!(!breakdown_fits(&big));
    let mut exact = DirNode::scan(&dir("r", vec![file("a.rs", 10), file("b.rs", 5)]));
    exact.children[0].size = u64::MAX - 5;
    assert!(breakdown_fits(&exact));
}

#[test]
fn cache_keeps_the_largest_time_for_one_past_range() {
    let mut root = DirNode::scan(&dir("r", vec![file("a", 3)]));
    root.modified = u128::MAX;
    let cached = CachedNode::from_node(&root);
    assert_eq!(cached.modified_secs, u64::MAX);
    let back = cached.into_dir_node();
    assert_eq!(back.modified, u64::MAX as u128 * 1_000_000_000);
}
