//! The rules of the browser that need no screen: which directory a
//! screen is rooted at, where "back" leads, how a listing is searched,
//! sorted, and kept in step with a file that was renamed or deleted, and
//! how a color of an SVG text is exchanged for another.

use crate::models::file_items::{item_views, FileSystemItem, ItemView};
use crate::text::{
    contains, has_part, has_prefix, lowercase_of, replace, replaced, same_text, starts_with,
    text_from, text_of, to_chars, to_lowercase, to_uppercase, uppercase_of,
};
use crate::utils::file_finder::FileFilter;
use crate::utils::paths::{choose_parent, get_parent_path, parent_of, parent_or_same};
use crate::utils::sorting::{sort_listing, sorted};
use crate::utils::svg_values::Color;
use vstd::prelude::*;

verus! {

/// The files that a screen lists: SVG files in the gallery, font files
/// on the font screen; the other screens list nothing.
pub open spec fn filter_of(view: crate::models::gui::View) -> Option<FileFilter> {
    match view {
        crate::models::gui::View::Gallery => Some(FileFilter::Svg),
        crate::models::gui::View::Fonts => Some(FileFilter::Font),
        _ => None,
    }
}

/// The files that a screen lists.
pub fn filter_for(view: crate::models::gui::View) -> (filter: Option<FileFilter>)
    ensures
        filter == filter_of(view),
{
    match view {
        crate::models::gui::View::Gallery => Some(FileFilter::Svg),
        crate::models::gui::View::Fonts => Some(FileFilter::Font),
        _ => None,
    }
}

/// What a screen scans when it is opened or refreshed: the vault for SVG
/// files in the gallery, the font directory for font files on the font
/// screen, and nothing on the other screens.
pub open spec fn target_of(
    view: crate::models::gui::View,
    vault_path: Seq<char>,
    font_path: Seq<char>,
) -> Option<(Seq<char>, FileFilter)> {
    match view {
        crate::models::gui::View::Gallery => Some((vault_path, FileFilter::Svg)),
        crate::models::gui::View::Fonts => Some((font_path, FileFilter::Font)),
        _ => None,
    }
}

/// What a screen scans when it is opened or refreshed.
pub fn scan_target<'a>(
    view: crate::models::gui::View,
    vault_path: &'a str,
    font_path: &'a str,
) -> (target: Option<(&'a str, FileFilter)>)
    ensures
        match target {
            Some((path, filter)) => target_of(view, vault_path@, font_path@) == Some(
                (path@, filter),
            ),
            None => target_of(view, vault_path@, font_path@) is None,
        },
{
    match view {
        crate::models::gui::View::Gallery => Some((vault_path, FileFilter::Svg)),
        crate::models::gui::View::Fonts => Some((font_path, FileFilter::Font)),
        _ => None,
    }
}

/// What the escape key leaves of the screen, of the open options window
/// and of the open search: the editor is left for the gallery, and the
/// options window is closed, or, if it was not open, the search.
pub open spec fn escaped(
    view: crate::models::gui::View,
    gallery_options: bool,
    search_active: bool,
) -> (crate::models::gui::View, bool, bool) {
    (
        if view == crate::models::gui::View::Editor {
            crate::models::gui::View::Gallery
        } else {
            view
        },
        false,
        gallery_options && search_active,
    )
}

/// Says what the escape key leaves of the screen, of the open options
/// window and of the open search.
pub fn on_escape(
    view: crate::models::gui::View,
    gallery_options: bool,
    search_active: bool,
) -> (out: (crate::models::gui::View, bool, bool))
    ensures
        out == escaped(view, gallery_options, search_active),
{
    let shown = match view {
        crate::models::gui::View::Editor => crate::models::gui::View::Gallery,
        other => other,
    };
    if gallery_options {
        (shown, false, search_active)
    } else {
        (shown, false, false)
    }
}

/// The directory that a screen is rooted at: the vault in the gallery,
/// the font directory on the font screen, and elsewhere the directory
/// that is shown.
pub open spec fn root_of(
    view: crate::models::gui::View,
    vault_path: Seq<char>,
    font_path: Seq<char>,
    current_path: Seq<char>,
) -> Seq<char> {
    match view {
        crate::models::gui::View::Gallery => vault_path,
        crate::models::gui::View::Fonts => font_path,
        _ => current_path,
    }
}

/// The directory that a screen is rooted at.
pub fn get_root_path<'a>(
    view: crate::models::gui::View,
    vault_path: &'a str,
    font_path: &'a str,
    current_path: &'a str,
) -> (root: &'a str)
    ensures
        root@ == root_of(view, vault_path@, font_path@, current_path@),
{
    match view {
        crate::models::gui::View::Gallery => vault_path,
        crate::models::gui::View::Fonts => font_path,
        _ => current_path,
    }
}

/// Where "back" leads from `current` on a screen rooted at `root`,
/// `parent` being the parent of `current`: nowhere at the root itself,
/// and else to the parent, provided that its text begins with `root`.
pub open spec fn back_of(current: Seq<char>, root: Seq<char>, parent: Option<Seq<char>>) -> Option<
    Seq<char>,
> {
    let target = parent_or_same(current, parent);
    if current != root && has_prefix(target, root) {
        Some(target)
    } else {
        None
    }
}

/// Decides where "back" leads, given the parent of `current`.
pub fn choose_back(current: &str, root: &str, parent: Option<String>) -> (out: Option<String>)
    ensures
        text_of(out) == back_of(current@, root@, text_of(parent)),
{
    if same_text(current, root) {
        return None;
    }
    let target = choose_parent(current, parent);
    if starts_with(&to_chars(target.as_str()), &to_chars(root)) {
        Some(target)
    } else {
        None
    }
}

/// Where "back" leads from `current` on a screen rooted at `root`.
pub fn back_target(current: &str, root: &str) -> (out: Option<String>)
    ensures
        text_of(out) == back_of(current@, root@, parent_of(current@)),
{
    if same_text(current, root) {
        return None;
    }
    let target = get_parent_path(current);
    if starts_with(&to_chars(target.as_str()), &to_chars(root)) {
        Some(target)
    } else {
        None
    }
}

/// The listing in the order that is asked for: ascending as a scan gives
/// it, or the same from its end.
pub open spec fn arranged(items: Seq<ItemView>, ascending: bool) -> Seq<ItemView> {
    if ascending {
        sorted(items)
    } else {
        sorted(items).reverse()
    }
}

/// Turns a listing round.
pub fn reverse_items(items: &mut Vec<FileSystemItem>)
    ensures
        item_views(final(items)@) == item_views(old(items)@).reverse(),
{
    let mut taken: Vec<FileSystemItem> = Vec::new();
    core::mem::swap(items, &mut taken);
    let ghost all = item_views(taken@);
    assert(item_views(items@) =~= all.reverse().take(0));
    while taken.len() > 0
        invariant
            taken.len() <= all.len(),
            item_views(taken@) == all.take(taken.len() as int),
            item_views(items@) == all.reverse().take(all.len() - taken.len()),
        decreases taken.len(),
    {
        let ghost n = taken.len() as int;
        let ghost shown = item_views(items@);
        let ghost held = taken@;
        match taken.pop() {
            Some(item) => {
                items.push(item);
                proof {
                    assert(item == held[n - 1]);
                    assert(item@ == all.take(n)[n - 1]);
                    assert(item_views(taken@) =~= all.take(n - 1));
                    assert(item_views(items@) =~= shown.push(item@));
                    assert(all.reverse()[all.len() - n] == all[n - 1]);
                    assert(all.reverse().take(all.len() - n + 1) =~= all.reverse().take(
                        all.len() - n,
                    ).push(item@));
                }
            },
            None => {},
        }
    }
    assert(all.reverse().take(all.len() as int) =~= all.reverse());
}

/// Sorts a listing: ascending as a scan gives it, directories first and
/// each group by name, or, for `ascending == false`, the same from its
/// end.
pub fn sort_items(items: &mut Vec<FileSystemItem>, ascending: bool)
    ensures
        item_views(final(items)@) == arranged(item_views(old(items)@), ascending),
{
    sort_listing(items);
    if !ascending {
        reverse_items(items);
    }
}

/// Whether a name answers a search: in lower case it holds the query in
/// lower case.
pub open spec fn answers(name: Seq<char>, query: Seq<char>) -> bool {
    has_part(lowercase_of(name), lowercase_of(query))
}

/// The items of a listing whose names answer a search, in order.
pub open spec fn searched(items: Seq<ItemView>, query: Seq<char>) -> Seq<ItemView> {
    items.filter_map(
        |item: ItemView|
            if answers(item.name, query) {
                Some(item)
            } else {
                None
            },
    )
}

/// Tests whether `lowered_name` holds `lowered_query`.
pub fn name_holds(lowered_name: &str, lowered_query: &str) -> (b: bool)
    ensures
        b == has_part(lowered_name@, lowered_query@),
{
    contains(&to_chars(lowered_name), &to_chars(lowered_query))
}

/// Keeps the items of a listing whose names answer a search, letters
/// compared without regard to case.
pub fn search_items(items: Vec<FileSystemItem>, query: &str) -> (out: Vec<FileSystemItem>)
    ensures
        item_views(out@) == searched(item_views(items@), query@),
{
    let lowered = to_lowercase(query);
    let mut out: Vec<FileSystemItem> = Vec::new();
    let ghost all = item_views(items@);
    let ghost pick = |item: ItemView|
        if answers(item.name, query@) {
            Some(item)
        } else {
            None
        };
    assert(all.take(0).filter_map(pick) =~= Seq::empty());
    assert(item_views(out@) =~= all.take(0).filter_map(pick));
    for item in it: items
        invariant
            item_views(it.seq()) == all,
            lowered@ == lowercase_of(query@),
            pick == |item: ItemView|
                if answers(item.name, query@) {
                    Some(item)
                } else {
                    None
                },
            item_views(out@) =~= all.take(it.index() as int).filter_map(pick),
    {
        let ghost shown = item_views(out@);
        proof {
            all.lemma_filter_map_take_succ(pick, it.index() as int);
            assert(all[it.index() as int] == item@);
        }
        let name = to_lowercase(item.name().as_str());
        if name_holds(name.as_str(), lowered.as_str()) {
            out.push(item);
            assert(item_views(out@) =~= shown.push(item@));
        }
    }
    assert(all.take(all.len() as int) =~= all);
    out
}

/// The listing after the file at `old_path` was renamed: the first item
/// with that path has the new name and the new path, and its kind as
/// before. The other items are as they were.
pub open spec fn renamed(
    items: Seq<ItemView>,
    old_path: Seq<char>,
    new_name: Seq<char>,
    new_path: Seq<char>,
) -> Seq<ItemView>
    decreases items.len(),
{
    if items.len() == 0 {
        items
    } else if items.first().path == old_path {
        seq![ItemView { kind: items.first().kind, name: new_name, path: new_path }]
            + items.drop_first()
    } else {
        seq![items.first()] + renamed(items.drop_first(), old_path, new_name, new_path)
    }
}

/// Brings a listing in step with a file that was renamed: the first item
/// at `old_path` gets the new name and the new path.
pub fn rename_item(
    items: &mut Vec<FileSystemItem>,
    old_path: &str,
    new_name: &str,
    new_path: &str,
)
    ensures
        item_views(final(items)@) == renamed(
            item_views(old(items)@),
            old_path@,
            new_name@,
            new_path@,
        ),
{
    let mut taken: Vec<FileSystemItem> = Vec::new();
    core::mem::swap(items, &mut taken);
    let ghost all = item_views(taken@);
    let mut done = false;
    assert(all.skip(0) =~= all);
    assert(item_views(items@) + all =~= all);
    for item in it: taken
        invariant
            item_views(it.seq()) == all,
            renamed(all, old_path@, new_name@, new_path@) == item_views(items@) + if done {
                all.skip(it.index() as int)
            } else {
                renamed(all.skip(it.index() as int), old_path@, new_name@, new_path@)
            },
    {
        let ghost n = it.index() as int;
        let ghost shown = item_views(items@);
        let ghost rest = all.skip(n);
        proof {
            assert(rest.first() == item@);
            assert(rest.drop_first() =~= all.skip(n + 1));
        }
        if !done && same_text(item.path().as_str(), old_path) {
            let changed = FileSystemItem::new(
                item.kind(),
                new_name.to_owned(),
                new_path.to_owned(),
            );
            items.push(changed);
            done = true;
            proof {
                assert(item_views(items@) =~= shown.push(changed@));
                assert(shown + (seq![changed@] + all.skip(n + 1)) =~= item_views(items@)
                    + all.skip(n + 1));
            }
        } else {
            items.push(item);
            proof {
                assert(item_views(items@) =~= shown.push(item@));
                if done {
                    assert(shown + rest =~= item_views(items@) + all.skip(n + 1));
                } else {
                    assert(shown + (seq![item@] + renamed(
                        all.skip(n + 1),
                        old_path@,
                        new_name@,
                        new_path@,
                    )) =~= item_views(items@) + renamed(
                        all.skip(n + 1),
                        old_path@,
                        new_name@,
                        new_path@,
                    ));
                }
            }
        }
    }
    proof {
        assert(all.skip(all.len() as int) =~= Seq::<ItemView>::empty());
        assert(item_views(items@) + Seq::<ItemView>::empty() =~= item_views(items@));
    }
}

/// The listing without the items at `path`.
pub open spec fn without(items: Seq<ItemView>, path: Seq<char>) -> Seq<ItemView> {
    items.filter_map(
        |item: ItemView|
            if item.path != path {
                Some(item)
            } else {
                None
            },
    )
}

/// Brings a listing in step with a file that was deleted: every item at
/// `path` leaves it.
pub fn remove_item(items: &mut Vec<FileSystemItem>, path: &str)
    ensures
        item_views(final(items)@) == without(item_views(old(items)@), path@),
{
    let mut taken: Vec<FileSystemItem> = Vec::new();
    core::mem::swap(items, &mut taken);
    let ghost all = item_views(taken@);
    let ghost pick = |item: ItemView|
        if item.path != path@ {
            Some(item)
        } else {
            None
        };
    assert(all.take(0).filter_map(pick) =~= Seq::empty());
    assert(item_views(items@) =~= all.take(0).filter_map(pick));
    for item in it: taken
        invariant
            item_views(it.seq()) == all,
            pick == |item: ItemView|
                if item.path != path@ {
                    Some(item)
                } else {
                    None
                },
            item_views(items@) =~= all.take(it.index() as int).filter_map(pick),
    {
        let ghost shown = item_views(items@);
        proof {
            all.lemma_filter_map_take_succ(pick, it.index() as int);
            assert(all[it.index() as int] == item@);
        }
        if !same_text(item.path().as_str(), path) {
            items.push(item);
            assert(item_views(items@) =~= shown.push(item@));
        }
    }
    assert(all.take(all.len() as int) =~= all);
}

/// The digit of a number below sixteen, capital letters for ten and
/// more.
pub open spec fn hex_digit(n: int) -> char {
    if n < 10 {
        (('0' as u32) + n) as char
    } else {
        (('A' as u32) + n - 10) as char
    }
}

/// The two digits of a byte, the high one first.
pub open spec fn hex_pair(byte: u8) -> Seq<char> {
    seq![hex_digit(byte as int / 16), hex_digit(byte as int % 16)]
}

/// A color as `#RRGGBB`, in capital letters.
pub open spec fn hex_text(color: Color) -> Seq<char> {
    seq!['#'] + hex_pair(color.red) + hex_pair(color.green) + hex_pair(color.blue)
}

/// The digit of a number below sixteen.
fn digit_of(n: u8) -> (c: char)
    requires
        n < 16,
    ensures
        c == hex_digit(n as int),
{
    if n < 10 {
        (48u8 + n) as char
    } else {
        (55u8 + n) as char
    }
}

/// Appends the two digits of a byte.
fn push_pair(out: &mut Vec<char>, byte: u8)
    ensures
        final(out)@ == old(out)@ + hex_pair(byte),
{
    let ghost before = out@;
    out.push(digit_of(byte / 16));
    out.push(digit_of(byte % 16));
    assert(out@ =~= before + hex_pair(byte));
}

/// Writes a color as `#RRGGBB`, in capital letters.
pub fn hex_code(color: Color) -> (out: String)
    ensures
        out@ == hex_text(color),
{
    let mut chars: Vec<char> = Vec::new();
    chars.push('#');
    assert(chars@ =~= seq!['#']);
    push_pair(&mut chars, color.red);
    push_pair(&mut chars, color.green);
    push_pair(&mut chars, color.blue);
    text_from(&chars)
}

/// The text in which a color is exchanged: every occurrence of the old
/// color in lower case, then every one in upper case, then every one as
/// it was given, is replaced by the new color.
pub open spec fn recolored(content: Seq<char>, old_color: Seq<char>, new_color: Seq<char>) -> Seq<
    char,
> {
    replaced(
        replaced(
            replaced(content, lowercase_of(old_color), new_color),
            uppercase_of(old_color),
            new_color,
        ),
        old_color,
        new_color,
    )
}

/// Exchanges a color in a text, given the old color in lower and in
/// upper case.
pub fn replace_spellings(
    content: &str,
    lowered: &str,
    raised: &str,
    old_color: &str,
    new_color: &str,
) -> (out: String)
    ensures
        out@ == replaced(
            replaced(replaced(content@, lowered@, new_color@), raised@, new_color@),
            old_color@,
            new_color@,
        ),
{
    let to = to_chars(new_color);
    let first = replace(&to_chars(content), &to_chars(lowered), &to);
    let second = replace(&first, &to_chars(raised), &to);
    let third = replace(&second, &to_chars(old_color), &to);
    text_from(&third)
}

/// Exchanges a color in an SVG text: `old_color` is replaced by
/// `new_color` wherever it stands in lower case, in upper case, or as
/// given.
pub fn replace_color_in_svg(content: &str, old_color: &str, new_color: &str) -> (out: String)
    ensures
        out@ == recolored(content@, old_color@, new_color@),
{
    let lowered = to_lowercase(old_color);
    let raised = to_uppercase(old_color);
    replace_spellings(content, lowered.as_str(), raised.as_str(), old_color, new_color)
}

/// The mark with which a message of success begins.
pub open spec fn success_mark() -> Seq<char> {
    seq!['\u{2705}']
}

/// Tests whether a message tells of a success: whether it begins with the
/// check mark.
pub fn is_success_message(message: &str) -> (b: bool)
    ensures
        b == has_prefix(message@, success_mark()),
{
    let mut mark: Vec<char> = Vec::new();
    mark.push('\u{2705}');
    assert(mark@ =~= success_mark());
    starts_with(&to_chars(message), &mark)
}

/// The name as the preview shows it: a name of more than 35 characters
/// is cut to its first 32, with three dots behind.
pub open spec fn shortened(name: Seq<char>) -> Seq<char> {
    if name.len() > 35 {
        name.take(32) + seq!['.', '.', '.']
    } else {
        name
    }
}

/// Shortens a name for the preview.
pub fn shorten_name(name: &str) -> (out: String)
    ensures
        out@ == shortened(name@),
{
    let chars = to_chars(name);
    if chars.len() > 35 {
        let mut kept: Vec<char> = Vec::new();
        let mut i: usize = 0;
        while i < 32
            invariant
                i <= 32,
                chars.len() > 35,
                chars@ == name@,
                kept@ == name@.take(i as int),
            decreases 32 - i,
        {
            kept.push(chars[i]);
            assert(name@.take(i + 1) =~= name@.take(i as int).push(name@[i as int]));
            i += 1;
        }
        let ghost head = kept@;
        kept.push('.');
        kept.push('.');
        kept.push('.');
        assert(kept@ =~= head + seq!['.', '.', '.']);
        text_from(&kept)
    } else {
        name.to_owned()
    }
}

/// Whether the last dot of `name` stands at index `i`.
pub open spec fn is_last_dot(name: Seq<char>, i: int) -> bool {
    &&& 0 <= i < name.len()
    &&& name[i] == '.'
    &&& forall|k: int| i < k < name.len() ==> name[k] != '.'
}

/// Finds the last dot of a name, before which the cursor is put when the
/// name is to be changed. The index counts characters.
pub fn last_dot(name: &str) -> (out: Option<usize>)
    ensures
        match out {
            Some(i) => is_last_dot(name@, i as int),
            None => forall|k: int| 0 <= k < name@.len() ==> name@[k] != '.',
        },
{
    let chars = to_chars(name);
    let mut i: usize = chars.len();
    while i > 0
        invariant
            i <= chars.len(),
            chars@ == name@,
            forall|k: int| i <= k < name@.len() ==> name@[k] != '.',
        decreases i,
    {
        i -= 1;
        if chars[i] == '.' {
            return Some(i);
        }
    }
    None
}

} // verus!
