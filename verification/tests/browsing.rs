use asset_manager::models::file_items::{FileSystemItem, ItemKind};
use asset_manager::models::graphic_file::GraphicFile;
use asset_manager::models::gui::View;
use asset_manager::utils::browsing::{
    back_target, choose_back, filter_for, get_root_path, hex_code, is_success_message, last_dot,
    name_holds, on_escape, remove_item, rename_item, replace_color_in_svg, replace_spellings,
    reverse_items, scan_target, search_items, shorten_name, sort_items,
};
use asset_manager::utils::file_finder::FileFilter;
use asset_manager::utils::svg_values::Color;

fn dir(name: &str) -> FileSystemItem {
    FileSystemItem::Directory { name: name.to_string(), path: format!("/v/{}", name) }
}

fn svg(name: &str) -> FileSystemItem {
    FileSystemItem::SvgFile { name: name.to_string(), path: format!("/v/{}", name) }
}

fn font(name: &str) -> FileSystemItem {
    FileSystemItem::FontFile { name: name.to_string(), path: format!("/v/{}", name) }
}

fn names(items: &[FileSystemItem]) -> Vec<String> {
    items.iter().map(|item| item.name().clone()).collect()
}

#[test]
fn each_screen_has_its_filter() {
    assert_eq!(filter_for(View::Gallery), Some(FileFilter::Svg));
    assert_eq!(filter_for(View::Fonts), Some(FileFilter::Font));
    assert_eq!(filter_for(View::Settings), None);
    assert_eq!(filter_for(View::Help), None);
    assert_eq!(filter_for(View::Editor), None);
}

#[test]
fn each_screen_has_its_root() {
    assert_eq!(get_root_path(View::Gallery, "/vault", "/fonts", "/here"), "/vault");
    assert_eq!(get_root_path(View::Fonts, "/vault", "/fonts", "/here"), "/fonts");
    assert_eq!(get_root_path(View::Settings, "/vault", "/fonts", "/here"), "/here");
    assert_eq!(get_root_path(View::Editor, "/vault", "/fonts", "/here"), "/here");
}

#[test]
fn back_leads_to_the_parent_within_the_root() {
    assert_eq!(back_target("/vault/icons/small", "/vault"), Some("/vault/icons".to_string()));
    assert_eq!(back_target("/vault/icons", "/vault"), Some("/vault".to_string()));
    assert_eq!(back_target("/vault", "/vault"), None);
    assert_eq!(back_target("/other/place", "/vault"), None);
}

#[test]
fn choose_back_decides_on_the_parent_it_is_given() {
    assert_eq!(choose_back("/v/a", "/v", Some("/v".to_string())), Some("/v".to_string()));
    assert_eq!(choose_back("/v", "/v", Some("/".to_string())), None);
    assert_eq!(choose_back("/v/a", "/v", Some("/w".to_string())), None);
    assert_eq!(choose_back("/v/a", "/v", None), Some("/v/a".to_string()));
    assert_eq!(choose_back("/w", "/v", None), None);
}

#[test]
fn sorting_ascending_puts_directories_first() {
    let mut items = vec![svg("b.svg"), dir("z"), font("a.ttf"), svg("a.svg"), dir("m")];
    sort_items(&mut items, true);
    assert_eq!(names(&items), vec!["m", "z", "a.svg", "b.svg", "a.ttf"]);
}

#[test]
fn sorting_descending_is_the_ascending_order_from_its_end() {
    let mut items = vec![svg("b.svg"), dir("z"), svg("a.svg"), dir("m")];
    sort_items(&mut items, false);
    assert_eq!(names(&items), vec!["b.svg", "a.svg", "z", "m"]);
    let mut empty: Vec<FileSystemItem> = vec![];
    sort_items(&mut empty, false);
    assert!(empty.is_empty());
}

#[test]
fn reversing_turns_a_listing_round() {
    let mut items = vec![dir("1"), dir("2"), dir("3")];
    reverse_items(&mut items);
    assert_eq!(names(&items), vec!["3", "2", "1"]);
}

#[test]
fn search_ignores_case() {
    let items = vec![svg("Arrow-Left.svg"), svg("circle.svg"), svg("ARROW_up.svg"), dir("arrows")];
    let found = search_items(items, "arrow");
    assert_eq!(names(&found), vec!["Arrow-Left.svg", "ARROW_up.svg", "arrows"]);
    let items = vec![svg("Übung.svg"), svg("uebung.svg")];
    assert_eq!(names(&search_items(items, "ÜB")), vec!["Übung.svg"]);
}

#[test]
fn an_empty_query_keeps_everything_and_a_strange_one_nothing() {
    let items = vec![svg("a.svg"), svg("b.svg")];
    assert_eq!(names(&search_items(items.clone(), "")), vec!["a.svg", "b.svg"]);
    assert!(search_items(items, "zzz").is_empty());
}

#[test]
fn name_holds_looks_for_the_query_anywhere() {
    assert!(name_holds("abc", "bc"));
    assert!(name_holds("abc", ""));
    assert!(name_holds("", ""));
    assert!(name_holds("abc", "abc"));
    assert!(!name_holds("abc", "abcd"));
    assert!(!name_holds("abc", "ca"));
    assert!(!name_holds("", "a"));
}

#[test]
fn renaming_changes_the_first_item_at_the_path() {
    let mut items = vec![dir("d"), svg("old.svg"), svg("old.svg"), font("f.ttf")];
    rename_item(&mut items, "/v/old.svg", "new.svg", "/v/new.svg");
    assert_eq!(
        items,
        vec![dir("d"), svg("new.svg"), svg("old.svg"), font("f.ttf")]
    );
    rename_item(&mut items, "/v/f.ttf", "g.otf", "/v/g.otf");
    assert_eq!(items[3], font("g.otf"));
    rename_item(&mut items, "/v/d", "e", "/v/e");
    assert_eq!(items[0], dir("e"));
}

#[test]
fn renaming_what_is_not_listed_changes_nothing() {
    let mut items = vec![dir("d"), svg("a.svg")];
    rename_item(&mut items, "/v/none.svg", "x.svg", "/v/x.svg");
    assert_eq!(items, vec![dir("d"), svg("a.svg")]);
    let mut empty: Vec<FileSystemItem> = vec![];
    rename_item(&mut empty, "/v/a", "b", "/v/b");
    assert!(empty.is_empty());
}

#[test]
fn removing_takes_every_item_at_the_path() {
    let mut items = vec![svg("a.svg"), svg("b.svg"), svg("a.svg"), dir("a.svg2")];
    remove_item(&mut items, "/v/a.svg");
    assert_eq!(items, vec![svg("b.svg"), dir("a.svg2")]);
    remove_item(&mut items, "/v/zzz");
    assert_eq!(items, vec![svg("b.svg"), dir("a.svg2")]);
}

#[test]
fn colors_are_written_in_capital_hex() {
    assert_eq!(hex_code(Color { red: 255, green: 0, blue: 0 }), "#FF0000");
    assert_eq!(hex_code(Color { red: 0, green: 0, blue: 0 }), "#000000");
    assert_eq!(hex_code(Color { red: 1, green: 35, blue: 171 }), "#0123AB");
    assert_eq!(hex_code(Color { red: 154, green: 188, blue: 222 }), "#9ABCDE");
    for n in 0..=255u8 {
        assert_eq!(
            hex_code(Color { red: n, green: 255 - n, blue: n / 2 }),
            format!("#{:02X}{:02X}{:02X}", n, 255 - n, n / 2)
        );
    }
}

#[test]
fn a_color_is_exchanged_in_lower_and_upper_case() {
    let content = "<rect fill=\"#ff0000\"/><rect stroke=\"#FF0000\"/><rect fill=\"#Ff0000\"/>";
    assert_eq!(
        replace_color_in_svg(content, "#FF0000", "#00FF00"),
        "<rect fill=\"#00FF00\"/><rect stroke=\"#00FF00\"/><rect fill=\"#Ff0000\"/>"
    );
    assert_eq!(replace_color_in_svg("no color here", "#FF0000", "#00FF00"), "no color here");
    assert_eq!(replace_color_in_svg("", "#FF0000", "#00FF00"), "");
}

#[test]
fn exchanging_agrees_with_the_standard_library() {
    let cases = [
        ("aXbxAxB", "x", "yy"),
        ("aaaa", "aa", "b"),
        ("aaa", "aa", "b"),
        ("abc", "", "-"),
        ("", "", "-"),
        ("abcabc", "abc", ""),
        ("ÄäÄ", "ä", "ae"),
        ("abc", "abcd", "x"),
    ];
    for (content, old, new) in cases {
        let expected = content
            .replace(&old.to_lowercase(), new)
            .replace(&old.to_uppercase(), new)
            .replace(old, new);
        assert_eq!(replace_color_in_svg(content, old, new), expected);
    }
}

#[test]
fn replace_spellings_replaces_in_three_passes() {
    assert_eq!(replace_spellings("a-A-a", "a", "A", "A", "b"), "b-b-b");
    assert_eq!(replace_spellings("a-A-a", "x", "y", "z", "b"), "a-A-a");
    assert_eq!(replace_spellings("abab", "ab", "ba", "b", "a"), "aa");
}

#[test]
fn a_message_of_success_begins_with_the_check_mark() {
    assert!(is_success_message("\u{2705} Saved!"));
    assert!(is_success_message("\u{2705}"));
    assert!(!is_success_message("Failed to save: \u{2705}"));
    assert!(!is_success_message(""));
}

#[test]
fn long_names_are_cut_to_thirty_two_characters_and_three_dots() {
    let short = "a".repeat(35);
    assert_eq!(shorten_name(&short), short);
    let long = "abcdefghijklmnopqrstuvwxyz0123456789.svg";
    assert_eq!(shorten_name(long), "abcdefghijklmnopqrstuvwxyz012345...");
    assert_eq!(shorten_name(""), "");
    let thirty_six = "b".repeat(36);
    assert_eq!(shorten_name(&thirty_six), format!("{}...", "b".repeat(32)));
}

#[test]
fn an_unnamed_graphic_has_placeholder_texts() {
    let file = GraphicFile::default();
    assert_eq!(file.name, "Unknown File");
    assert_eq!(file.path, "Unknown");
}

#[test]
fn an_item_knows_its_kind_name_and_path() {
    let item = FileSystemItem::new(ItemKind::FontFile, "a.ttf".to_string(), "/f/a.ttf".to_string());
    assert_eq!(item, FileSystemItem::FontFile { name: "a.ttf".to_string(), path: "/f/a.ttf".to_string() });
    assert_eq!(item.kind(), ItemKind::FontFile);
    assert_eq!(item.name(), "a.ttf");
    assert_eq!(item.path(), "/f/a.ttf");
    assert_eq!(dir("d").kind(), ItemKind::Directory);
    assert_eq!(svg("s.svg").kind(), ItemKind::SvgFile);
}

#[test]
fn the_last_dot_is_found_by_characters() {
    assert_eq!(last_dot("icon.svg"), Some(4));
    assert_eq!(last_dot("archive.tar.gz"), Some(11));
    assert_eq!(last_dot("noextension"), None);
    assert_eq!(last_dot(""), None);
    assert_eq!(last_dot(".hidden"), Some(0));
    assert_eq!(last_dot("ünïcödé.svg"), Some(7));
    assert_eq!(last_dot("end."), Some(3));
}

#[test]
fn each_screen_has_its_scan_target() {
    assert_eq!(scan_target(View::Gallery, "/vault", "/fonts"), Some(("/vault", FileFilter::Svg)));
    assert_eq!(scan_target(View::Fonts, "/vault", "/fonts"), Some(("/fonts", FileFilter::Font)));
    assert_eq!(scan_target(View::Settings, "/vault", "/fonts"), None);
    assert_eq!(scan_target(View::Help, "/vault", "/fonts"), None);
    assert_eq!(scan_target(View::Editor, "/vault", "/fonts"), None);
}

#[test]
fn escape_closes_one_thing_at_a_time() {
    assert_eq!(on_escape(View::Editor, false, false), (View::Gallery, false, false));
    assert_eq!(on_escape(View::Gallery, true, true), (View::Gallery, false, true));
    assert_eq!(on_escape(View::Gallery, true, false), (View::Gallery, false, false));
    assert_eq!(on_escape(View::Fonts, false, true), (View::Fonts, false, false));
    assert_eq!(on_escape(View::Editor, true, true), (View::Gallery, false, true));
    assert_eq!(on_escape(View::Help, false, false), (View::Help, false, false));
}
