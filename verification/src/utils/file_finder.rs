//! Turning what a directory holds into the listing that is shown.
//!
//! Reading the directory is the caller's part. It hands over what it read:
//! the subdirectories, or the reason why the directory could not be read,
//! and the files that it could list. The listing is computed here.

use crate::models::file_items::{item_views, FileSystemItem, ItemKind, ItemView};
use crate::text::{
    ends_with, ends_with_ignoring_ascii_case, has_suffix, has_suffix_ignoring_ascii_case, to_chars,
};
use crate::utils::paths::final_component;
use crate::utils::sorting::{
    is_ordered, lemma_sorted, lemma_sorted_groups, sort_listing, sorted,
};
use vstd::prelude::*;
use vstd::string::StringExecFns;

verus! {

/// Which files a scan lists beside the directories.
#[derive(Debug, Clone, Copy, PartialEq, Eq, Structural)]
pub enum FileFilter {
    Svg,
    Font,
}

/// A subdirectory as the directory listing gave it.
#[derive(Debug, Clone, PartialEq, Eq)]
pub struct DirEntry {
    pub name: String,
    pub path: String,
}

/// A file as the directory listing gave it. `is_text` says whether the
/// whole content was read and decoded as text; it is consulted only for
/// names for which `FileFilter::needs_content_check` holds.
#[derive(Debug, Clone, PartialEq, Eq)]
pub struct FileEntry {
    pub name: String,
    pub path: String,
    pub is_text: bool,
}

/// Why a scan gave no listing.
#[derive(Debug, Clone, PartialEq, Eq)]
pub enum ScanError {
    /// The directory to scan could not be read.
    DirectoryUnreadable { path: String, cause: String },
}

impl ScanError {
    /// What is said of the error: `Failed to scan directory '…': …`, with
    /// the path and the reason.
    pub open spec fn message_text(self) -> Seq<char> {
        match self {
            ScanError::DirectoryUnreadable { path, cause } => "Failed to scan directory '"@ + path@
                + "': "@ + cause@,
        }
    }

    /// Says what went wrong, for the user to read.
    pub fn message(&self) -> (out: String)
        ensures
            out@ == self.message_text(),
    {
        match self {
            ScanError::DirectoryUnreadable { path, cause } => String::from_str(
                "Failed to scan directory '",
            ).concat(path.as_str()).concat("': ").concat(cause.as_str()),
        }
    }
}

/// `.svg`
pub open spec fn svg_suffix() -> Seq<char> {
    seq!['.', 's', 'v', 'g']
}

/// `.ttf`
pub open spec fn ttf_suffix() -> Seq<char> {
    seq!['.', 't', 't', 'f']
}

/// `.otf`
pub open spec fn otf_suffix() -> Seq<char> {
    seq!['.', 'o', 't', 'f']
}

/// `.woff`
pub open spec fn woff_suffix() -> Seq<char> {
    seq!['.', 'w', 'o', 'f', 'f']
}

/// `.woff2`
pub open spec fn woff2_suffix() -> Seq<char> {
    seq!['.', 'w', 'o', 'f', 'f', '2']
}

/// A name that ends in `.svg`, written exactly so.
pub open spec fn is_svg_name(name: Seq<char>) -> bool {
    has_suffix(name, svg_suffix())
}

/// A name that ends in `.ttf`, `.otf`, `.woff` or `.woff2`, in capital or
/// small letters.
pub open spec fn is_font_name(name: Seq<char>) -> bool {
    ||| has_suffix_ignoring_ascii_case(name, ttf_suffix())
    ||| has_suffix_ignoring_ascii_case(name, otf_suffix())
    ||| has_suffix_ignoring_ascii_case(name, woff_suffix())
    ||| has_suffix_ignoring_ascii_case(name, woff2_suffix())
}

impl FileFilter {
    /// The kind of the files that the filter lets through.
    pub open spec fn file_kind(self) -> ItemKind {
        match self {
            FileFilter::Svg => ItemKind::SvgFile,
            FileFilter::Font => ItemKind::FontFile,
        }
    }

    /// Whether a file of this name is listed only if its content is
    /// text.
    pub open spec fn reads_content(self, name: Seq<char>) -> bool {
        self == FileFilter::Svg && is_svg_name(name)
    }

    /// Whether a file is listed: an SVG file by its name and a content
    /// that is text, a font file by its name alone.
    pub open spec fn admits(self, name: Seq<char>, is_text: bool) -> bool {
        match self {
            FileFilter::Svg => is_svg_name(name) && is_text,
            FileFilter::Font => is_font_name(name),
        }
    }

    /// The kind of the files that the filter lets through.
    pub fn kind(&self) -> (kind: ItemKind)
        ensures
            kind == self.file_kind(),
    {
        match self {
            FileFilter::Svg => ItemKind::SvgFile,
            FileFilter::Font => ItemKind::FontFile,
        }
    }

    /// Says whether the content of a file of this name has to be read
    /// before the file can be listed.
    pub fn needs_content_check(&self, name: &str) -> (needed: bool)
        ensures
            needed == self.reads_content(name@),
    {
        match self {
            FileFilter::Svg => has_svg_name(name),
            FileFilter::Font => false,
        }
    }

    /// Says whether a file is listed.
    pub fn accepts(&self, name: &str, is_text: bool) -> (accepted: bool)
        ensures
            accepted == self.admits(name@, is_text),
    {
        match self {
            FileFilter::Svg => is_text && has_svg_name(name),
            FileFilter::Font => has_font_name(name),
        }
    }
}

/// Tests a name for the ending `.svg`.
pub fn has_svg_name(name: &str) -> (b: bool)
    ensures
        b == is_svg_name(name@),
{
    proof {
        reveal_strlit(".svg");
    }
    let suffix = to_chars(".svg");
    assert(suffix@ =~= svg_suffix());
    ends_with(&to_chars(name), &suffix)
}

/// Tests a name for one of the font endings, in capital or small letters.
pub fn has_font_name(name: &str) -> (b: bool)
    ensures
        b == is_font_name(name@),
{
    proof {
        reveal_strlit(".ttf");
        reveal_strlit(".otf");
        reveal_strlit(".woff");
        reveal_strlit(".woff2");
    }
    let chars = to_chars(name);
    let ttf = to_chars(".ttf");
    let otf = to_chars(".otf");
    let woff = to_chars(".woff");
    let woff2 = to_chars(".woff2");
    assert(ttf@ =~= ttf_suffix());
    assert(otf@ =~= otf_suffix());
    assert(woff@ =~= woff_suffix());
    assert(woff2@ =~= woff2_suffix());
    ends_with_ignoring_ascii_case(&chars, &ttf) || ends_with_ignoring_ascii_case(&chars, &otf)
        || ends_with_ignoring_ascii_case(&chars, &woff) || ends_with_ignoring_ascii_case(
        &chars,
        &woff2,
    )
}

/// The item that stands for a subdirectory.
pub open spec fn directory_item(entry: DirEntry) -> ItemView {
    ItemView { kind: ItemKind::Directory, name: entry.name@, path: entry.path@ }
}

/// The item that stands for a file, if the filter lets the file through.
pub open spec fn file_item(entry: FileEntry, filter: FileFilter) -> Option<ItemView> {
    if filter.admits(entry.name@, entry.is_text) {
        Some(ItemView { kind: filter.file_kind(), name: entry.name@, path: entry.path@ })
    } else {
        None
    }
}

/// One item for each subdirectory, in the order given.
pub open spec fn directory_items(directories: Seq<DirEntry>) -> Seq<ItemView> {
    directories.map_values(|entry: DirEntry| directory_item(entry))
}

/// One item for each file that the filter lets through, in the order
/// given.
pub open spec fn file_items(files: Seq<FileEntry>, filter: FileFilter) -> Seq<ItemView> {
    files.filter_map(|entry: FileEntry| file_item(entry, filter))
}

/// The listing of a directory: its subdirectories and the files that the
/// filter lets through, sorted.
pub open spec fn listing(
    directories: Seq<DirEntry>,
    files: Seq<FileEntry>,
    filter: FileFilter,
) -> Seq<ItemView> {
    sorted(directory_items(directories) + file_items(files, filter))
}

/// Makes an item of each subdirectory.
pub fn collect_directories(directories: Vec<DirEntry>) -> (items: Vec<FileSystemItem>)
    ensures
        item_views(items@) == directory_items(directories@),
{
    let mut items: Vec<FileSystemItem> = Vec::new();
    let ghost all = directories@;
    for entry in it: directories
        invariant
            it.seq() == all,
            item_views(items@) =~= directory_items(all.take(it.index() as int)),
    {
        let ghost n = it.index() as int;
        let ghost shown = item_views(items@);
        let item = FileSystemItem::Directory { name: entry.name, path: entry.path };
        items.push(item);
        proof {
            assert(all.take(n + 1) =~= all.take(n).push(entry));
            assert(item_views(items@) =~= shown.push(item@));
            assert(directory_items(all.take(n + 1)) =~= directory_items(all.take(n)).push(
                directory_item(entry),
            ));
        }
    }
    assert(all.take(all.len() as int) =~= all);
    items
}

/// Appends to `items` one item for each file that the filter lets
/// through.
pub fn collect_files(items: &mut Vec<FileSystemItem>, files: Vec<FileEntry>, filter: FileFilter)
    ensures
        item_views(final(items)@) == item_views(old(items)@) + file_items(files@, filter),
{
    let ghost all = files@;
    let ghost before = item_views(items@);
    let ghost pick = |entry: FileEntry| file_item(entry, filter);
    assert(all.take(0).filter_map(pick) =~= Seq::empty());
    assert(item_views(items@) =~= before + all.take(0).filter_map(pick));
    for entry in it: files
        invariant
            it.seq() == all,
            pick == |entry: FileEntry| file_item(entry, filter),
            item_views(items@) =~= before + all.take(it.index() as int).filter_map(pick),
    {
        let ghost shown = item_views(items@);
        proof {
            all.lemma_filter_map_take_succ(pick, it.index() as int);
            assert(pick(entry) == file_item(entry, filter));
        }
        if filter.accepts(entry.name.as_str(), entry.is_text) {
            let item = FileSystemItem::new(filter.kind(), entry.name, entry.path);
            items.push(item);
            assert(item_views(items@) =~= shown.push(item@));
        }
    }
    assert(all.take(all.len() as int) =~= all);
}

/// Lists a directory.
///
/// `directories` is what reading the subdirectories of `path` gave: the
/// entries, or the reason for the failure. `files` holds the files that
/// could be listed; a failure while listing them is no error, the listing
/// then shows those that were read before it.
///
/// If the subdirectories could not be read the scan fails with the path
/// and the reason. Otherwise the result holds every subdirectory and
/// every file that the filter lets through, directories first, each group
/// ascending by name.
pub fn scan_directory(
    path: &str,
    directories: Result<Vec<DirEntry>, String>,
    files: Vec<FileEntry>,
    filter: FileFilter,
) -> (out: Result<Vec<FileSystemItem>, ScanError>)
    ensures
        match directories {
            Ok(found) => out matches Ok(items) && item_views(items@) == listing(
                found@,
                files@,
                filter,
            ),
            Err(cause) => out matches Err(ScanError::DirectoryUnreadable { path: p, cause: c })
                && p@ == path@ && c@ == cause@,
        },
{
    match directories {
        Err(cause) => Err(ScanError::DirectoryUnreadable { path: path.to_owned(), cause }),
        Ok(found) => {
            let mut items = collect_directories(found);
            collect_files(&mut items, files, filter);
            sort_listing(&mut items);
            Ok(items)
        },
    }
}

/// In a listing the directories stand before the files, the names of the
/// directories ascend and the names of the files ascend.
pub proof fn lemma_listing_order(
    directories: Seq<DirEntry>,
    files: Seq<FileEntry>,
    filter: FileFilter,
    i: int,
    j: int,
)
    requires
        0 <= i < j < listing(directories, files, filter).len(),
    ensures
        ({
            let shown = listing(directories, files, filter);
            &&& shown[j].kind == ItemKind::Directory ==> shown[i].kind == ItemKind::Directory
            &&& shown[i].kind == shown[j].kind ==> crate::text::lex_le(shown[i].name, shown[j].name)
        }),
{
    let all = directory_items(directories) + file_items(files, filter);
    lemma_sorted(all);
    lemma_sorted_groups(all, i, j);
}

/// A listing holds each subdirectory and each file that the filter lets
/// through exactly as often as they were handed in, and nothing else.
pub proof fn lemma_listing_complete(
    directories: Seq<DirEntry>,
    files: Seq<FileEntry>,
    filter: FileFilter,
)
    ensures
        listing(directories, files, filter).to_multiset() == directory_items(
            directories,
        ).to_multiset().add(file_items(files, filter).to_multiset()),
        listing(directories, files, filter).len() == directories.len() + file_items(
            files,
            filter,
        ).len(),
        is_ordered(listing(directories, files, filter)),
{
    let all = directory_items(directories) + file_items(files, filter);
    lemma_sorted(all);
    vstd::seq_lib::lemma_multiset_commutative(
        directory_items(directories),
        file_items(files, filter),
    );
}

/// Whether the name of an item is the last component of its path.
pub open spec fn well_named(item: ItemView) -> bool {
    final_component(item.path) == Some(item.name)
}

/// A listing names its items as the entries were named that it was made
/// from: if the name of every entry is the last component of its path,
/// the same holds of every item.
pub proof fn lemma_listing_well_named(
    directories: Seq<DirEntry>,
    files: Seq<FileEntry>,
    filter: FileFilter,
)
    requires
        forall|i: int|
            0 <= i < directories.len() ==> final_component((#[trigger] directories[i]).path@)
                == Some(directories[i].name@),
        forall|i: int|
            0 <= i < files.len() ==> final_component((#[trigger] files[i]).path@) == Some(
                files[i].name@,
            ),
    ensures
        forall|i: int|
            0 <= i < listing(directories, files, filter).len() ==> well_named(
                #[trigger] listing(directories, files, filter)[i],
            ),
{
    broadcast use vstd::seq_lib::group_to_multiset_ensures;

    let from_directories = directory_items(directories);
    let from_files = file_items(files, filter);
    let all = from_directories + from_files;
    let shown = listing(directories, files, filter);
    lemma_sorted(all);
    assert forall|i: int| 0 <= i < shown.len() implies well_named(#[trigger] shown[i]) by {
        let item = shown[i];
        assert(shown.to_multiset().count(item) > 0);
        assert(all.to_multiset().count(item) > 0);
        let k = choose|k: int| 0 <= k < all.len() && all[k] == item;
        if k < from_directories.len() {
            assert(item == directory_item(directories[k]));
        } else {
            let at = k - from_directories.len();
            assert(from_files[at] == item);
            assert(from_files.contains(item));
            files.lemma_filter_map_contains(|entry: FileEntry| file_item(entry, filter), item);
            let entry = choose|entry: FileEntry| #[trigger]
                files.contains(entry) && file_item(entry, filter) == Some(item);
            let j = choose|j: int| 0 <= j < files.len() && files[j] == entry;
            assert(final_component(files[j].path@) == Some(files[j].name@));
        }
    }
}

} // verus!
