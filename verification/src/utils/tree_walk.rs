//! Listing the files of a whole directory tree.
//!
//! Reading a directory is the caller's part, so the scan is a dialogue.
//! Each step names the directory that is to be read next; the caller
//! reads it and hands over what it found, until the step holds the
//! result. Directories are read in the order in which a walk meets them
//! that goes down into each directory as soon as it is listed.

use crate::models::file_items::{item_views, FileSystemItem, ItemView};
use crate::utils::file_finder::{file_item, DirEntry, FileEntry, FileFilter, ScanError};
use crate::utils::sorting::{sort_listing, sorted};
use vstd::prelude::*;

verus! {

/// One entry of a directory that was read during a walk.
#[derive(Debug, Clone, PartialEq, Eq)]
pub enum TreeEntry {
    /// A directory, or a link to one.
    Directory(DirEntry),
    /// A regular file, or a link to one.
    File(FileEntry),
    /// Anything else.
    Other,
    /// An entry that could not be read.
    Unreadable,
}

/// A walk that is under way.
#[derive(Debug, PartialEq, Eq)]
pub struct TreeWalk {
    /// The directory at which the walk began.
    pub root: String,
    /// Which files are listed.
    pub filter: FileFilter,
    /// Whether the directory that is being read is the root.
    pub at_root: bool,
    /// The entries that were listed and not looked at yet; the last one
    /// is looked at first.
    pub pending: Vec<TreeEntry>,
    /// The files that were found so far, in the order in which they
    /// were met.
    pub found: Vec<FileSystemItem>,
}

/// What a walk asks for, or what it ended with.
#[derive(Debug, PartialEq, Eq)]
pub enum WalkStep {
    /// The directory at `path` is to be read and its listing handed to
    /// `walk`.
    Read { walk: TreeWalk, path: String },
    /// The walk is over.
    Done(Result<Vec<FileSystemItem>, ScanError>),
}

/// What a `TreeWalk` is in contracts.
pub struct WalkView {
    pub root: Seq<char>,
    pub filter: FileFilter,
    pub at_root: bool,
    pub pending: Seq<TreeEntry>,
    pub found: Seq<ItemView>,
}

/// What a `WalkStep` is in contracts.
pub enum StepView {
    Read { walk: WalkView, path: Seq<char> },
    Listed(Seq<ItemView>),
    Failed { path: Seq<char>, cause: Seq<char> },
}

impl View for TreeWalk {
    type V = WalkView;

    open spec fn view(&self) -> WalkView {
        WalkView {
            root: self.root@,
            filter: self.filter,
            at_root: self.at_root,
            pending: self.pending@,
            found: item_views(self.found@),
        }
    }
}

impl View for WalkStep {
    type V = StepView;

    open spec fn view(&self) -> StepView {
        match *self {
            WalkStep::Read { walk, path } => StepView::Read { walk: walk@, path: path@ },
            WalkStep::Done(Ok(items)) => StepView::Listed(item_views(items@)),
            WalkStep::Done(Err(ScanError::DirectoryUnreadable { path, cause })) => StepView::Failed {
                path: path@,
                cause: cause@,
            },
        }
    }
}

/// What reading a directory gave, in contracts.
pub open spec fn listing_view(listing: Result<Vec<TreeEntry>, String>) -> Result<
    Seq<TreeEntry>,
    Seq<char>,
> {
    match listing {
        Ok(entries) => Ok(entries@),
        Err(cause) => Err(cause@),
    }
}

/// `found` with the file added that `entry` stands for, if the filter
/// lets it through.
pub open spec fn with_entry(found: Seq<ItemView>, entry: TreeEntry, filter: FileFilter) -> Seq<
    ItemView,
> {
    match entry {
        TreeEntry::File(file) => match file_item(file, filter) {
            Some(item) => found.push(item),
            None => found,
        },
        _ => found,
    }
}

/// The entries that are left, and the files that are found, once every
/// entry that is looked at before the next directory has been looked at.
/// A file is found if the filter lets it through; an entry that is
/// neither file nor directory, or that could not be read, is passed over.
pub open spec fn settled(pending: Seq<TreeEntry>, found: Seq<ItemView>, filter: FileFilter) -> (
    Seq<TreeEntry>,
    Seq<ItemView>,
)
    decreases pending.len(),
{
    if pending.len() == 0 {
        (pending, found)
    } else if pending.last() is Directory {
        (pending, found)
    } else {
        settled(pending.drop_last(), with_entry(found, pending.last(), filter), filter)
    }
}

/// The step that a walk takes with the entries it holds: it looks at
/// entries until it meets a directory, which is to be read next, or until
/// none is left, which ends the walk with the sorted listing.
pub open spec fn proceed(walk: WalkView) -> StepView {
    let (pending, found) = settled(walk.pending, walk.found, walk.filter);
    if pending.len() == 0 {
        StepView::Listed(sorted(found))
    } else {
        StepView::Read {
            walk: WalkView {
                root: walk.root,
                filter: walk.filter,
                at_root: false,
                pending: pending.drop_last(),
                found,
            },
            path: pending.last()->Directory_0.path@,
        }
    }
}

/// The step that a walk takes when it is handed what reading the
/// directory it asked for gave.
///
/// If the root cannot be read the walk fails. Any other directory that
/// cannot be read is passed over. The entries of a directory that was
/// read are looked at before the entries that were pending, the first
/// of them first.
pub open spec fn answered(walk: WalkView, listing: Result<Seq<TreeEntry>, Seq<char>>) -> StepView {
    match listing {
        Err(cause) => if walk.at_root {
            StepView::Failed { path: walk.root, cause }
        } else {
            proceed(walk)
        },
        Ok(entries) => proceed(
            WalkView {
                root: walk.root,
                filter: walk.filter,
                at_root: walk.at_root,
                pending: walk.pending + entries.reverse(),
                found: walk.found,
            },
        ),
    }
}

/// The walk over the tree below `path` before anything is read.
pub open spec fn fresh(path: Seq<char>, filter: FileFilter) -> WalkView {
    WalkView { root: path, filter, at_root: true, pending: Seq::empty(), found: Seq::empty() }
}

/// Where a walk over the tree below `path` begins: nothing is pending,
/// nothing is found, and `path` is to be read.
pub open spec fn begun(path: Seq<char>, filter: FileFilter) -> StepView {
    StepView::Read { walk: fresh(path, filter), path }
}

/// Begins the scan of the whole tree below `path`. The step that comes
/// back asks for `path` to be read.
pub fn scan_directory_recursive(path: &str, filter: FileFilter) -> (step: WalkStep)
    ensures
        step@ == begun(path@, filter),
{
    let walk = TreeWalk {
        root: path.to_owned(),
        filter,
        at_root: true,
        pending: Vec::new(),
        found: Vec::new(),
    };
    assert(item_views(walk.found@) =~= Seq::empty());
    WalkStep::Read { walk, path: path.to_owned() }
}

impl TreeWalk {
    /// Puts the entries of a listing before the pending ones, the first
    /// of them to be looked at first.
    fn take_in(&mut self, entries: Vec<TreeEntry>)
        ensures
            final(self).pending@ == old(self).pending@ + entries@.reverse(),
            final(self).root == old(self).root,
            final(self).filter == old(self).filter,
            final(self).at_root == old(self).at_root,
            final(self).found == old(self).found,
    {
        let mut entries = entries;
        let ghost all = entries@;
        let ghost before = self.pending@;
        assert(self.pending@ =~= before + all.reverse().take(0));
        while entries.len() > 0
            invariant
                entries.len() <= all.len(),
                entries@ == all.take(entries.len() as int),
                self.pending@ == before + all.reverse().take(all.len() - entries.len()),
                self.root == old(self).root,
                self.filter == old(self).filter,
                self.at_root == old(self).at_root,
                self.found == old(self).found,
            decreases entries.len(),
        {
            let ghost n = entries.len() as int;
            let ghost stacked = self.pending@;
            let entry = entries.pop();
            match entry {
                Some(entry) => {
                    self.pending.push(entry);
                    proof {
                        assert(entry == all[n - 1]);
                        assert(entries@ =~= all.take(n - 1));
                        assert(all.reverse()[all.len() - n] == all[n - 1]);
                        assert(all.reverse().take(all.len() - n + 1) =~= all.reverse().take(
                            all.len() - n,
                        ).push(entry));
                        assert(self.pending@ =~= before + all.reverse().take(all.len() - n + 1));
                    }
                },
                None => {},
            }
        }
        assert(all.reverse().take(all.len() as int) =~= all.reverse());
    }

    /// Looks at pending entries until a directory is met or none is left.
    fn advance(self) -> (step: WalkStep)
        ensures
            step@ == proceed(self@),
    {
        let mut walk = self;
        let ghost start = walk@;
        loop
            invariant
                walk.root == self.root,
                walk.filter == self.filter,
                start == self@,
                settled(walk@.pending, walk@.found, walk.filter) == settled(
                    start.pending,
                    start.found,
                    start.filter,
                ),
            decreases walk.pending.len(),
        {
            let ghost pending = walk.pending@;
            let ghost found = item_views(walk.found@);
            match walk.pending.pop() {
                None => {
                    let mut items = walk.found;
                    sort_listing(&mut items);
                    return WalkStep::Done(Ok(items));
                },
                Some(TreeEntry::Directory(directory)) => {
                    assert(walk.pending@ =~= pending.drop_last());
                    let path = directory.path;
                    walk.at_root = false;
                    return WalkStep::Read { walk, path };
                },
                Some(TreeEntry::File(file)) => {
                    assert(walk.pending@ =~= pending.drop_last());
                    if walk.filter.accepts(file.name.as_str(), file.is_text) {
                        let item = FileSystemItem::new(walk.filter.kind(), file.name, file.path);
                        walk.found.push(item);
                        assert(item_views(walk.found@) =~= found.push(item@));
                    }
                },
                Some(TreeEntry::Other) => {
                    assert(walk.pending@ =~= pending.drop_last());
                },
                Some(TreeEntry::Unreadable) => {
                    assert(walk.pending@ =~= pending.drop_last());
                },
            }
        }
    }

    /// Takes what reading the directory gave that the walk asked for, and
    /// says what comes next.
    ///
    /// If the root could not be read the walk ends with
    /// `DirectoryUnreadable`, which holds the root and the reason. Another
    /// directory that could not be read is passed over.
    pub fn answer(self, listing: Result<Vec<TreeEntry>, String>) -> (step: WalkStep)
        ensures
            step@ == answered(self@, listing_view(listing)),
    {
        let mut walk = self;
        match listing {
            Err(cause) => {
                if walk.at_root {
                    WalkStep::Done(Err(ScanError::DirectoryUnreadable { path: walk.root, cause }))
                } else {
                    walk.advance()
                }
            },
            Ok(entries) => {
                walk.take_in(entries);
                walk.advance()
            },
        }
    }
}

} // verus!
