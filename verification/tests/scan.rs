use asset_manager::models::file_items::{FileSystemItem, ItemKind};
use asset_manager::utils::file_finder::{
    collect_directories, collect_files, has_font_name, has_svg_name, scan_directory, DirEntry,
    FileEntry, FileFilter, ScanError,
};
use asset_manager::utils::sorting::{rank_of, sort_listing};

fn dir(name: &str) -> DirEntry {
    DirEntry { name: name.to_string(), path: format!("/vault/{}", name) }
}

fn file(name: &str, is_text: bool) -> FileEntry {
    FileEntry { name: name.to_string(), path: format!("/vault/{}", name), is_text }
}

#[test]
fn directories_come_before_files_each_group_ascending() {
    let dirs = vec![dir("zeta"), dir("Alpha"), dir("beta")];
    let files = vec![file("b.svg", true), file("a.svg", true), file("C.svg", true)];
    let out = scan_directory("/vault", Ok(dirs), files, FileFilter::Svg).unwrap();
    let names: Vec<String> = out.iter().map(|i| i.name().clone()).collect();
    assert_eq!(names, vec!["Alpha", "beta", "zeta", "C.svg", "a.svg", "b.svg"]);
    assert!(matches!(out[0], FileSystemItem::Directory { .. }));
    assert!(matches!(out[3], FileSystemItem::SvgFile { .. }));
}

#[test]
fn unreadable_root_is_an_error() {
    let out = scan_directory("/missing", Err("No such file or directory".to_string()), vec![], FileFilter::Svg);
    assert_eq!(
        out,
        Err(ScanError::DirectoryUnreadable {
            path: "/missing".to_string(),
            cause: "No such file or directory".to_string(),
        })
    );
}

#[test]
fn a_file_that_is_no_text_is_left_out_without_error() {
    let files = vec![file("broken.svg", false), file("good.svg", true)];
    let out = scan_directory("/vault", Ok(vec![]), files, FileFilter::Svg);
    assert_eq!(
        out,
        Ok(vec![FileSystemItem::SvgFile {
            name: "good.svg".to_string(),
            path: "/vault/good.svg".to_string(),
        }])
    );
}

#[test]
fn svg_names_are_matched_exactly() {
    let files = vec![
        file("a.svg", true),
        file("B.SVG", true),
        file("c.Svg", true),
        file("svg", true),
        file(".svg", true),
        file("d.svg.bak", true),
        file("e.svgz", true),
    ];
    let out = scan_directory("/vault", Ok(vec![]), files, FileFilter::Svg).unwrap();
    let names: Vec<String> = out.iter().map(|i| i.name().clone()).collect();
    assert_eq!(names, vec![".svg", "a.svg"]);
}

#[test]
fn font_names_are_matched_without_regard_to_case() {
    let files = vec![
        file("a.ttf", false),
        file("B.TTF", false),
        file("c.Otf", false),
        file("d.woff", false),
        file("e.WOFF2", false),
        file("f.svg", true),
        file("g.ttf.txt", false),
        file("ttf", false),
        file("h.woff3", false),
    ];
    let out = scan_directory("/fonts", Ok(vec![]), files, FileFilter::Font).unwrap();
    let names: Vec<String> = out.iter().map(|i| i.name().clone()).collect();
    assert_eq!(names, vec!["B.TTF", "a.ttf", "c.Otf", "d.woff", "e.WOFF2"]);
    assert!(out.iter().all(|i| matches!(i, FileSystemItem::FontFile { .. })));
}

#[test]
fn fonts_need_no_text_content() {
    assert!(FileFilter::Font.accepts("a.ttf", false));
    assert!(!FileFilter::Font.needs_content_check("a.ttf"));
    assert!(FileFilter::Svg.needs_content_check("a.svg"));
    assert!(!FileFilter::Svg.needs_content_check("a.png"));
    assert!(!FileFilter::Svg.accepts("a.svg", false));
    assert!(FileFilter::Svg.accepts("a.svg", true));
    assert!(!FileFilter::Svg.accepts("a.ttf", true));
}

#[test]
fn names_are_ordered_by_code_point() {
    let dirs = vec![dir("b"), dir("B"), dir("a"), dir("_"), dir("ä"), dir("ab"), dir("")];
    let out = scan_directory("/vault", Ok(dirs), vec![], FileFilter::Svg).unwrap();
    let names: Vec<String> = out.iter().map(|i| i.name().clone()).collect();
    let mut expected = vec!["b", "B", "a", "_", "ä", "ab", ""];
    expected.sort();
    assert_eq!(names, expected);
    assert_eq!(names, vec!["", "B", "_", "a", "ab", "b", "ä"]);
}

#[test]
fn entries_of_equal_name_keep_their_order() {
    let dirs = vec![
        DirEntry { name: "same".to_string(), path: "/one/same".to_string() },
        DirEntry { name: "same".to_string(), path: "/two/same".to_string() },
        DirEntry { name: "same".to_string(), path: "/three/same".to_string() },
    ];
    let out = scan_directory("/vault", Ok(dirs), vec![], FileFilter::Svg).unwrap();
    let paths: Vec<String> = out.iter().map(|i| i.path().clone()).collect();
    assert_eq!(paths, vec!["/one/same", "/two/same", "/three/same"]);
}

#[test]
fn an_empty_directory_gives_an_empty_listing() {
    assert_eq!(scan_directory("/vault", Ok(vec![]), vec![], FileFilter::Font), Ok(vec![]));
}

#[test]
fn the_files_that_were_listed_are_not_looked_at_when_the_directory_is_unreadable() {
    let out = scan_directory("/x", Err("denied".to_string()), vec![file("a.svg", true)], FileFilter::Svg);
    assert!(matches!(out, Err(ScanError::DirectoryUnreadable { .. })));
}

#[test]
fn a_scan_error_says_which_directory_and_why() {
    let error = ScanError::DirectoryUnreadable {
        path: "/missing".to_string(),
        cause: "No such file or directory (os error 2)".to_string(),
    };
    assert_eq!(
        error.message(),
        "Failed to scan directory '/missing': No such file or directory (os error 2)"
    );
}

#[test]
fn directories_and_files_are_collected_in_the_order_given() {
    let mut items = collect_directories(vec![dir("b"), dir("a")]);
    assert_eq!(
        items,
        vec![
            FileSystemItem::Directory { name: "b".to_string(), path: "/vault/b".to_string() },
            FileSystemItem::Directory { name: "a".to_string(), path: "/vault/a".to_string() },
        ]
    );
    collect_files(
        &mut items,
        vec![file("z.otf", false), file("skip.svg", true), file("y.woff", false)],
        FileFilter::Font,
    );
    let names: Vec<String> = items.iter().map(|i| i.name().clone()).collect();
    assert_eq!(names, vec!["b", "a", "z.otf", "y.woff"]);
    assert!(matches!(items[2], FileSystemItem::FontFile { .. }));
}

#[test]
fn names_are_tested_for_their_endings() {
    assert!(has_svg_name("x.svg"));
    assert!(!has_svg_name("x.SVG"));
    assert!(!has_svg_name("xsvg"));
    assert!(has_font_name("x.ttf"));
    assert!(has_font_name("x.OTF"));
    assert!(has_font_name("x.Woff"));
    assert!(has_font_name("x.wOFF2"));
    assert!(!has_font_name("x.woff22"));
    assert!(!has_font_name("x.tt"));
    assert!(!has_font_name(""));
}

#[test]
fn the_kinds_have_their_places() {
    assert_eq!(rank_of(ItemKind::Directory), 0);
    assert_eq!(rank_of(ItemKind::SvgFile), 1);
    assert_eq!(rank_of(ItemKind::FontFile), 2);
    assert_eq!(FileFilter::Svg.kind(), ItemKind::SvgFile);
    assert_eq!(FileFilter::Font.kind(), ItemKind::FontFile);
}

#[test]
fn sorting_a_listing_orders_kinds_then_names() {
    let mut items = vec![
        FileSystemItem::FontFile { name: "a.ttf".to_string(), path: "1".to_string() },
        FileSystemItem::SvgFile { name: "z.svg".to_string(), path: "2".to_string() },
        FileSystemItem::Directory { name: "zz".to_string(), path: "3".to_string() },
        FileSystemItem::SvgFile { name: "a.svg".to_string(), path: "4".to_string() },
        FileSystemItem::Directory { name: "a".to_string(), path: "5".to_string() },
    ];
    sort_listing(&mut items);
    let paths: Vec<String> = items.iter().map(|i| i.path().clone()).collect();
    assert_eq!(paths, vec!["5", "3", "4", "2", "1"]);
}
