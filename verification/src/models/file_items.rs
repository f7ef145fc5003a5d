//! The entries that a scan lists.

use vstd::prelude::*;

verus! {

/// The three kinds of entry that a scan lists.
#[derive(Debug, Clone, Copy, PartialEq, Eq, Structural)]
pub enum ItemKind {
    Directory,
    SvgFile,
    FontFile,
}

/// One entry of a scanned directory. `name` is the last component of
/// `path`, as the directory listing gave both.
#[derive(Debug, Clone, PartialEq, Eq)]
pub enum FileSystemItem {
    Directory { name: String, path: String },
    SvgFile { name: String, path: String },
    FontFile { name: String, path: String },
}

/// What a `FileSystemItem` is in contracts.
pub struct ItemView {
    pub kind: ItemKind,
    pub name: Seq<char>,
    pub path: Seq<char>,
}

impl View for FileSystemItem {
    type V = ItemView;

    open spec fn view(&self) -> ItemView {
        match *self {
            FileSystemItem::Directory { name, path } => ItemView {
                kind: ItemKind::Directory,
                name: name@,
                path: path@,
            },
            FileSystemItem::SvgFile { name, path } => ItemView {
                kind: ItemKind::SvgFile,
                name: name@,
                path: path@,
            },
            FileSystemItem::FontFile { name, path } => ItemView {
                kind: ItemKind::FontFile,
                name: name@,
                path: path@,
            },
        }
    }
}

impl FileSystemItem {
    /// Builds the item of the given kind.
    pub fn new(kind: ItemKind, name: String, path: String) -> (item: FileSystemItem)
        ensures
            item@ == (ItemView { kind, name: name@, path: path@ }),
    {
        match kind {
            ItemKind::Directory => FileSystemItem::Directory { name, path },
            ItemKind::SvgFile => FileSystemItem::SvgFile { name, path },
            ItemKind::FontFile => FileSystemItem::FontFile { name, path },
        }
    }

    /// Which of the three kinds the item is.
    pub fn kind(&self) -> (kind: ItemKind)
        ensures
            kind == self@.kind,
    {
        match self {
            FileSystemItem::Directory { .. } => ItemKind::Directory,
            FileSystemItem::SvgFile { .. } => ItemKind::SvgFile,
            FileSystemItem::FontFile { .. } => ItemKind::FontFile,
        }
    }

    /// The entry's file name.
    pub fn name(&self) -> (name: &String)
        ensures
            name@ == self@.name,
    {
        match self {
            FileSystemItem::Directory { name, .. } => name,
            FileSystemItem::SvgFile { name, .. } => name,
            FileSystemItem::FontFile { name, .. } => name,
        }
    }

    /// The entry's path.
    pub fn path(&self) -> (path: &String)
        ensures
            path@ == self@.path,
    {
        match self {
            FileSystemItem::Directory { path, .. } => path,
            FileSystemItem::SvgFile { path, .. } => path,
            FileSystemItem::FontFile { path, .. } => path,
        }
    }
}

/// The views of a sequence of items, in order.
pub open spec fn item_views(items: Seq<FileSystemItem>) -> Seq<ItemView> {
    items.map_values(|item: FileSystemItem| item@)
}

} // verus!
