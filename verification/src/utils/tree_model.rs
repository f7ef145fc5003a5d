//! What a walk over a directory tree ends with.
//!
//! A tree is described here as a value, and a walk is followed to its end
//! on the assumption that every directory it asks for is answered with
//! what the tree holds there. The walk then lists each file of the tree
//! that the filter lets through, whatever its depth, exactly once, and no
//! directory.

use crate::models::file_items::{ItemKind, ItemView};
use crate::utils::file_finder::{file_item, well_named, DirEntry, FileEntry, FileFilter};
use crate::utils::sorting::{is_ordered, lemma_sorted, sorted};
use crate::utils::tree_walk::{
    answered, fresh, proceed, settled, with_entry, StepView, TreeEntry, WalkView,
};
use vstd::prelude::*;

verus! {

/// A directory tree, entry by entry.
pub enum Node {
    /// A directory with what reading it gives: its entries in the order
    /// in which they are listed, or nothing where it cannot be read.
    Directory { entry: DirEntry, listing: Option<Seq<Node>> },
    /// A file.
    File { file: FileEntry },
    /// Anything else.
    Other,
    /// An entry that could not be read.
    Unreadable,
}

/// The entry as which a listing shows a node.
pub open spec fn entry_of(node: Node) -> TreeEntry {
    match node {
        Node::Directory { entry, .. } => TreeEntry::Directory(entry),
        Node::File { file } => TreeEntry::File(file),
        Node::Other => TreeEntry::Other,
        Node::Unreadable => TreeEntry::Unreadable,
    }
}

/// The entries as which a listing shows the nodes.
pub open spec fn entries_of(nodes: Seq<Node>) -> Seq<TreeEntry> {
    nodes.map_values(|node: Node| entry_of(node))
}

/// What reading a node gives: the entries below a directory that can be
/// read, and a failure otherwise.
pub open spec fn reply(node: Node) -> Result<Seq<TreeEntry>, Seq<char>> {
    match node {
        Node::Directory { listing: Some(below), .. } => Ok(entries_of(below)),
        _ => Err(Seq::empty()),
    }
}

/// The nodes that reading a node brings to light.
pub open spec fn below(node: Node) -> Seq<Node> {
    match node {
        Node::Directory { listing: Some(below), .. } => below,
        _ => Seq::empty(),
    }
}

/// The number of nodes at and below a node.
pub open spec fn weight_of(node: Node) -> nat
    decreases node,
{
    match node {
        Node::Directory { listing: Some(below), .. } => 1 + weight(below),
        _ => 1,
    }
}

/// The number of nodes at and below the given nodes.
pub open spec fn weight(nodes: Seq<Node>) -> nat
    decreases nodes,
{
    if nodes.len() == 0 {
        0
    } else {
        weight(nodes.drop_last()) + weight_of(nodes.last())
    }
}

/// The files at and below a node that the filter lets through, in the
/// order in which a walk meets them.
pub open spec fn files_at(node: Node, filter: FileFilter) -> Seq<ItemView>
    decreases node,
{
    match node {
        Node::Directory { listing: Some(below), .. } => files_in(below, filter),
        Node::File { file } => match file_item(file, filter) {
            Some(item) => seq![item],
            None => Seq::empty(),
        },
        _ => Seq::empty(),
    }
}

/// The files at and below the given nodes that the filter lets through,
/// in the order in which a walk meets them: what is at and below the
/// first node comes first.
pub open spec fn files_in(nodes: Seq<Node>, filter: FileFilter) -> Seq<ItemView>
    decreases nodes,
{
    if nodes.len() == 0 {
        Seq::empty()
    } else {
        files_at(nodes.first(), filter) + files_in(nodes.drop_first(), filter)
    }
}

/// The weight of a concatenation is the sum of the weights.
pub proof fn lemma_weight_concat(a: Seq<Node>, b: Seq<Node>)
    ensures
        weight(a + b) == weight(a) + weight(b),
    decreases b.len(),
{
    if b.len() == 0 {
        assert(a + b =~= a);
    } else {
        assert((a + b).drop_last() =~= a + b.drop_last());
        lemma_weight_concat(a, b.drop_last());
    }
}

/// Reversing the nodes leaves their weight as it is.
pub proof fn lemma_weight_reverse(s: Seq<Node>)
    ensures
        weight(s.reverse()) == weight(s),
    decreases s.len(),
{
    if s.len() > 0 {
        let head = seq![s.last()];
        assert(s.reverse() =~= head + s.drop_last().reverse());
        lemma_weight_concat(head, s.drop_last().reverse());
        lemma_weight_reverse(s.drop_last());
        assert(head.drop_last() =~= Seq::<Node>::empty());
        assert(weight(head.drop_last()) == 0);
        assert(weight(head) == weight_of(s.last()));
    }
}

/// The first nodes weigh no more than all of them.
pub proof fn lemma_weight_take(s: Seq<Node>, k: int)
    requires
        0 <= k <= s.len(),
    ensures
        weight(s.take(k)) <= weight(s),
{
    assert(s =~= s.take(k) + s.skip(k));
    lemma_weight_concat(s.take(k), s.skip(k));
}

/// The files of a concatenation are those of its first part, then those
/// of its second part.
pub proof fn lemma_files_in_concat(a: Seq<Node>, b: Seq<Node>, filter: FileFilter)
    ensures
        files_in(a + b, filter) == files_in(a, filter) + files_in(b, filter),
    decreases a.len(),
{
    if a.len() == 0 {
        assert(a + b =~= b);
        assert(files_in(a, filter) + files_in(b, filter) =~= files_in(b, filter));
    } else {
        assert((a + b).drop_first() =~= a.drop_first() + b);
        lemma_files_in_concat(a.drop_first(), b, filter);
        assert(files_in(a + b, filter) =~= files_in(a, filter) + files_in(b, filter));
    }
}

/// The nodes that stand for what a step holds: the pending entries and,
/// last, the directory that is to be read.
pub open spec fn kept(step: StepView, nodes: Seq<Node>) -> Seq<Node> {
    match step {
        StepView::Read { walk, .. } => if walk.pending.len() < nodes.len() {
            nodes.take(walk.pending.len() as int + 1)
        } else {
            Seq::empty()
        },
        _ => Seq::empty(),
    }
}

/// The nodes that are left to look at once the last of `nodes` has been
/// read: those before it, and what is below it, the first of that last.
pub open spec fn grown(nodes: Seq<Node>) -> Seq<Node> {
    nodes.drop_last() + below(nodes.last()).reverse()
}

/// Reading a directory leaves less to look at.
pub proof fn lemma_weight_grown(nodes: Seq<Node>)
    requires
        nodes.len() > 0,
    ensures
        weight(grown(nodes)) < weight(nodes),
{
    lemma_weight_concat(nodes.drop_last(), below(nodes.last()).reverse());
    lemma_weight_reverse(below(nodes.last()));
    assert(weight(Seq::<Node>::empty()) == 0);
    assert(weight_of(nodes.last()) == 1 + weight(below(nodes.last())));
}

/// What a step holds weighs no more than the nodes it was taken from.
pub proof fn lemma_weight_kept(step: StepView, nodes: Seq<Node>)
    ensures
        weight(kept(step, nodes)) <= weight(nodes),
{
    match step {
        StepView::Read { walk, .. } => {
            if walk.pending.len() < nodes.len() {
                lemma_weight_take(nodes, walk.pending.len() as int + 1);
            }
        },
        _ => {},
    }
}

/// The step with which a walk ends when each directory that it asks for
/// is answered with what the tree holds there.
///
/// `nodes` stands for what the step holds: node for entry the pending
/// entries and, last, the directory that is to be read.
pub open spec fn completed(step: StepView, nodes: Seq<Node>) -> StepView
    decreases weight(nodes),
{
    match step {
        StepView::Read { walk, .. } => {
            if nodes.len() == walk.pending.len() + 1 && !walk.at_root {
                let next = answered(walk, reply(nodes.last()));
                proof {
                    lemma_weight_grown(nodes);
                    lemma_weight_kept(next, grown(nodes));
                }
                completed(next, kept(next, grown(nodes)))
            } else {
                step
            }
        },
        _ => step,
    }
}

/// What looking at pending entries up to the next directory does: the
/// entries that are left stand for the first of the nodes, the last of
/// them is a directory, and the files of the nodes that were looked at
/// have been found.
pub proof fn lemma_settled(nodes: Seq<Node>, found: Seq<ItemView>, filter: FileFilter)
    ensures
        ({
            let (pending, known) = settled(entries_of(nodes), found, filter);
            &&& pending.len() <= nodes.len()
            &&& pending == entries_of(nodes.take(pending.len() as int))
            &&& pending.len() > 0 ==> nodes[pending.len() - 1] is Directory
            &&& known + files_in(nodes.take(pending.len() as int).reverse(), filter) == found
                + files_in(nodes.reverse(), filter)
        }),
    decreases nodes.len(),
{
    let entries = entries_of(nodes);
    if nodes.len() == 0 {
        assert(nodes.take(0) =~= nodes);
        assert(entries =~= entries_of(nodes.take(0)));
    } else if entries.last() is Directory {
        assert(nodes.take(nodes.len() as int) =~= nodes);
    } else {
        let last = nodes.last();
        let rest = nodes.drop_last();
        let more = with_entry(found, entries.last(), filter);
        assert(entries.drop_last() =~= entries_of(rest));
        lemma_settled(rest, more, filter);
        let (pending, known) = settled(entries_of(rest), more, filter);
        assert(rest.take(pending.len() as int) =~= nodes.take(pending.len() as int));
        assert(nodes.reverse().first() == last);
        assert(nodes.reverse().drop_first() =~= rest.reverse());
        assert(more =~= found + files_at(last, filter));
        assert(known + files_in(nodes.take(pending.len() as int).reverse(), filter) =~= found + (
        files_at(last, filter) + files_in(rest.reverse(), filter)));
    }
}

/// A walk whose pending entries stand for `nodes` ends by listing what
/// it has found and the files at and below `nodes`, the last node first.
pub proof fn lemma_completed(walk: WalkView, nodes: Seq<Node>)
    requires
        walk.pending == entries_of(nodes),
    ensures
        completed(proceed(walk), kept(proceed(walk), nodes)) == StepView::Listed(
            sorted(walk.found + files_in(nodes.reverse(), walk.filter)),
        ),
    decreases weight(nodes),
{
    let filter = walk.filter;
    lemma_settled(nodes, walk.found, filter);
    let (pending, known) = settled(walk.pending, walk.found, filter);
    let step = proceed(walk);
    if pending.len() == 0 {
        assert(nodes.take(0).reverse() =~= Seq::<Node>::empty());
        assert(known =~= walk.found + files_in(nodes.reverse(), filter));
    } else {
        let held = nodes.take(pending.len() as int);
        let read = held.last();
        let rest = held.drop_last();
        let after = step->walk;
        assert(kept(step, nodes) == held);
        assert(after.pending =~= entries_of(rest));
        let next = answered(after, reply(read));
        let more = grown(held);
        let onward = WalkView {
            root: after.root,
            filter,
            at_root: false,
            pending: entries_of(more),
            found: known,
        };
        assert(entries_of(below(read).reverse()) =~= entries_of(below(read)).reverse());
        assert(entries_of(more) =~= after.pending + entries_of(below(read)).reverse());
        assert(next == proceed(onward)) by {
            if read matches Node::Directory { listing: Some(_), .. } {
            } else {
                assert(below(read).reverse() =~= Seq::<Node>::empty());
                assert(entries_of(more) =~= after.pending);
            }
        }
        lemma_weight_grown(held);
        lemma_weight_take(nodes, pending.len() as int);
        lemma_completed(onward, more);
        assert(completed(step, held) == completed(next, kept(next, more)));
        // the files below the directory, then those of the nodes before it
        assert(more.reverse() =~= below(read) + rest.reverse());
        lemma_files_in_concat(below(read), rest.reverse(), filter);
        assert(held.reverse().first() == read);
        assert(held.reverse().drop_first() =~= rest.reverse());
        assert(files_at(read, filter) == files_in(below(read), filter)) by {
            if !(read matches Node::Directory { listing: Some(_), .. }) {
                assert(files_in(Seq::<Node>::empty(), filter) =~= Seq::<ItemView>::empty());
            }
        }
        assert(known + files_in(more.reverse(), filter) =~= known + files_in(
            held.reverse(),
            filter,
        ));
    }
}

/// The step with which a walk of the tree below `path` ends, `root` being
/// what reading `path` gives: the entries of the tree, or the reason why
/// it cannot be read.
pub open spec fn walked(path: Seq<char>, filter: FileFilter, root: Result<Seq<Node>, Seq<char>>)
    -> StepView {
    match root {
        Ok(tree) => {
            let first = answered(fresh(path, filter), Ok(entries_of(tree)));
            completed(first, kept(first, tree.reverse()))
        },
        Err(cause) => answered(fresh(path, filter), Err(cause)),
    }
}

/// A walk of a tree whose root can be read ends with the sorted list of
/// the files of the tree that the filter lets through, at whatever depth.
/// A directory that cannot be read below the root is passed over.
pub proof fn lemma_walk_lists_tree(path: Seq<char>, filter: FileFilter, tree: Seq<Node>)
    ensures
        walked(path, filter, Ok(tree)) == StepView::Listed(sorted(files_in(tree, filter))),
{
    let start = WalkView {
        root: path,
        filter,
        at_root: true,
        pending: entries_of(tree.reverse()),
        found: Seq::empty(),
    };
    assert(entries_of(tree.reverse()) =~= Seq::<TreeEntry>::empty() + entries_of(tree).reverse());
    assert(tree.reverse().reverse() =~= tree);
    lemma_completed(start, tree.reverse());
    assert(Seq::<ItemView>::empty() + files_in(tree, filter) =~= files_in(tree, filter));
}

/// A walk of a tree whose root cannot be read fails with the root and the
/// reason.
pub proof fn lemma_walk_fails_at_root(path: Seq<char>, filter: FileFilter, cause: Seq<char>)
    ensures
        walked(path, filter, Err(cause)) == (StepView::Failed { path, cause }),
{
}

/// Every file that a walk lists is of the kind that the filter lets
/// through: no directory is listed.
pub proof fn lemma_files_in_kind(nodes: Seq<Node>, filter: FileFilter, i: int)
    requires
        0 <= i < files_in(nodes, filter).len(),
    ensures
        files_in(nodes, filter)[i].kind == filter.file_kind(),
        files_in(nodes, filter)[i].kind != ItemKind::Directory,
    decreases nodes, 0nat,
{
    let first = files_at(nodes.first(), filter);
    if i < first.len() {
        lemma_files_at_kind(nodes.first(), filter, i);
    } else {
        lemma_files_in_kind(nodes.drop_first(), filter, i - first.len());
    }
}

/// Every file that is listed for a node is of the kind that the filter
/// lets through.
pub proof fn lemma_files_at_kind(node: Node, filter: FileFilter, i: int)
    requires
        0 <= i < files_at(node, filter).len(),
    ensures
        files_at(node, filter)[i].kind == filter.file_kind(),
        files_at(node, filter)[i].kind != ItemKind::Directory,
    decreases node, 1nat,
{
    match node {
        Node::Directory { listing: Some(below), .. } => {
            lemma_files_in_kind(below, filter, i);
        },
        _ => {},
    }
}

/// The result of a walk holds each file of the tree that the filter lets
/// through exactly as often as the tree holds it, holds nothing else, and
/// is in listing order.
pub proof fn lemma_walk_result(tree: Seq<Node>, filter: FileFilter)
    ensures
        sorted(files_in(tree, filter)).to_multiset() == files_in(tree, filter).to_multiset(),
        sorted(files_in(tree, filter)).len() == files_in(tree, filter).len(),
        is_ordered(sorted(files_in(tree, filter))),
        forall|i: int|
            0 <= i < sorted(files_in(tree, filter)).len() ==> (#[trigger] sorted(
                files_in(tree, filter),
            )[i]).kind == filter.file_kind(),
{
    broadcast use vstd::seq_lib::group_to_multiset_ensures;

    let files = files_in(tree, filter);
    let listed = sorted(files);
    lemma_sorted(files);
    assert forall|i: int| 0 <= i < listed.len() implies (#[trigger] listed[i]).kind
        == filter.file_kind() by {
        assert(listed.to_multiset().count(listed[i]) > 0);
        assert(files.to_multiset().count(listed[i]) > 0);
        let k = choose|k: int| 0 <= k < files.len() && files[k] == listed[i];
        lemma_files_in_kind(tree, filter, k);
    }
}

/// A walk names its items as the files of the tree are named: if the name
/// of every file that the walk meets is the last component of its path,
/// the same holds of every item of the result.
pub proof fn lemma_walk_well_named(tree: Seq<Node>, filter: FileFilter)
    requires
        forall|i: int|
            0 <= i < files_in(tree, filter).len() ==> well_named(
                #[trigger] files_in(tree, filter)[i],
            ),
    ensures
        forall|i: int|
            0 <= i < sorted(files_in(tree, filter)).len() ==> well_named(
                #[trigger] sorted(files_in(tree, filter))[i],
            ),
{
    broadcast use vstd::seq_lib::group_to_multiset_ensures;

    let files = files_in(tree, filter);
    let listed = sorted(files);
    lemma_sorted(files);
    assert forall|i: int| 0 <= i < listed.len() implies well_named(#[trigger] listed[i]) by {
        assert(listed.to_multiset().count(listed[i]) > 0);
        assert(files.to_multiset().count(listed[i]) > 0);
        let k = choose|k: int| 0 <= k < files.len() && files[k] == listed[i];
        assert(well_named(files[k]));
    }
}

/// Whether `file` is a file entry of the tree: one of the nodes, or one
/// at whatever depth below a directory among them that can be read.
pub open spec fn holds_file(nodes: Seq<Node>, file: FileEntry) -> bool
    decreases nodes,
{
    exists|i: int|
        0 <= i < nodes.len() && (match #[trigger] nodes[i] {
            Node::File { file: found } => found == file,
            Node::Directory { listing: Some(below), .. } => holds_file(below, file),
            _ => false,
        })
}

/// The files that a walk meets carry the name and the path of the
/// entries that the directories listed: every item of `files_in` is the
/// item of a file entry that the tree holds and that the filter lets
/// through.
pub proof fn lemma_files_in_come_from_entries(nodes: Seq<Node>, filter: FileFilter, i: int)
    requires
        0 <= i < files_in(nodes, filter).len(),
    ensures
        exists|file: FileEntry| #[trigger]
            holds_file(nodes, file) && file_item(file, filter) == Some(files_in(nodes, filter)[i]),
    decreases nodes, 0nat,
{
    let first = files_at(nodes.first(), filter);
    if i < first.len() {
        lemma_files_at_come_from_entries(nodes.first(), filter, i);
        match nodes.first() {
            Node::File { file } => {
                assert(nodes[0] == nodes.first());
                assert(holds_file(nodes, file));
            },
            Node::Directory { listing: Some(below), .. } => {
                let file = choose|file: FileEntry| #[trigger]
                    holds_file(below, file) && file_item(file, filter) == Some(
                        files_in(below, filter)[i],
                    );
                assert(nodes[0] == nodes.first());
                assert(holds_file(nodes, file));
            },
            _ => {},
        }
    } else {
        let rest = nodes.drop_first();
        lemma_files_in_come_from_entries(rest, filter, i - first.len());
        let file = choose|file: FileEntry| #[trigger]
            holds_file(rest, file) && file_item(file, filter) == Some(
                files_in(rest, filter)[i - first.len()],
            );
        let k = choose|k: int|
            0 <= k < rest.len() && (match #[trigger] rest[k] {
                Node::File { file: found } => found == file,
                Node::Directory { listing: Some(below), .. } => holds_file(below, file),
                _ => false,
            });
        assert(nodes[k + 1] == rest[k]);
        assert(holds_file(nodes, file));
    }
}

/// Every item that is listed for a node is made of a file entry at or
/// below the node that the filter lets through.
pub proof fn lemma_files_at_come_from_entries(node: Node, filter: FileFilter, i: int)
    requires
        0 <= i < files_at(node, filter).len(),
    ensures
        match node {
            Node::File { file } => file_item(file, filter) == Some(files_at(node, filter)[i]),
            Node::Directory { listing: Some(below), .. } => exists|file: FileEntry| #[trigger]
                holds_file(below, file) && file_item(file, filter) == Some(
                    files_in(below, filter)[i],
                ),
            _ => false,
        },
    decreases node, 1nat,
{
    match node {
        Node::Directory { listing: Some(below), .. } => {
            lemma_files_in_come_from_entries(below, filter, i);
        },
        _ => {},
    }
}

} // verus!
