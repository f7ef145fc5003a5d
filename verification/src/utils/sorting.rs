//! The order in which a listing is shown: directories first, then SVG
//! files, then font files, each group ascending by name; entries of equal
//! kind and name keep the order in which they came.

use crate::models::file_items::{item_views, FileSystemItem, ItemKind, ItemView};
use crate::text::{chars_le, lemma_lex_le_total, lemma_lex_le_transitive, lex_le, to_chars};
use vstd::prelude::*;

verus! {

/// The place of a kind in the listing: directories, SVG files, font files.
pub open spec fn kind_rank(kind: ItemKind) -> int {
    match kind {
        ItemKind::Directory => 0,
        ItemKind::SvgFile => 1,
        ItemKind::FontFile => 2,
    }
}

/// Whether `a` may stand before `b`: its kind comes first, or the kinds
/// are equal and its name is at most `b`'s in code-point order.
pub open spec fn item_le(a: ItemView, b: ItemView) -> bool {
    kind_rank(a.kind) < kind_rank(b.kind) || (a.kind == b.kind && lex_le(a.name, b.name))
}

/// Whether each entry of `s` may stand before every later one.
pub open spec fn is_ordered(s: Seq<ItemView>) -> bool {
    forall|i: int, j: int| 0 <= i < j < s.len() ==> item_le(s[i], s[j])
}

/// `s` with `x` put behind the last entry that may stand before it.
pub open spec fn inserted(s: Seq<ItemView>, x: ItemView) -> Seq<ItemView>
    decreases s.len(),
{
    if s.len() == 0 {
        seq![x]
    } else if item_le(s.last(), x) {
        s.push(x)
    } else {
        inserted(s.drop_last(), x).push(s.last())
    }
}

/// The entries of `s` in listing order; equal entries keep their order.
pub open spec fn sorted(s: Seq<ItemView>) -> Seq<ItemView>
    decreases s.len(),
{
    if s.len() == 0 {
        Seq::empty()
    } else {
        inserted(sorted(s.drop_last()), s.last())
    }
}

/// Of two entries, one may stand before the other.
pub proof fn lemma_item_le_total(a: ItemView, b: ItemView)
    ensures
        item_le(a, b) || item_le(b, a),
{
    lemma_lex_le_total(a.name, b.name);
}

/// `item_le` is transitive.
pub proof fn lemma_item_le_transitive(a: ItemView, b: ItemView, c: ItemView)
    requires
        item_le(a, b),
        item_le(b, c),
    ensures
        item_le(a, c),
{
    if a.kind == b.kind && b.kind == c.kind {
        lemma_lex_le_transitive(a.name, b.name, c.name);
    }
}

/// Where `inserted` puts `x`: at index `at`, when no entry from `at` on may
/// stand before `x` and the entry just before `at` may.
pub proof fn lemma_inserted_at(s: Seq<ItemView>, x: ItemView, at: int)
    requires
        0 <= at <= s.len(),
        forall|k: int| at <= k < s.len() ==> !item_le(#[trigger] s[k], x),
        at > 0 ==> item_le(s[at - 1], x),
    ensures
        inserted(s, x) == s.insert(at, x),
    decreases s.len() - at,
{
    if at == s.len() {
        assert(s.insert(at, x) =~= s.push(x));
        if s.len() == 0 {
            assert(s.push(x) =~= seq![x]);
        }
    } else {
        let rest = s.drop_last();
        assert(!item_le(s[s.len() - 1], x));
        assert forall|k: int| at <= k < rest.len() implies !item_le(#[trigger] rest[k], x) by {
            assert(rest[k] == s[k]);
        }
        lemma_inserted_at(rest, x, at);
        assert(rest.insert(at, x).push(s.last()) =~= s.insert(at, x));
    }
}

/// Inserting into an ordered sequence leaves it ordered, with the same
/// entries and `x` once more.
pub proof fn lemma_inserted(s: Seq<ItemView>, x: ItemView)
    requires
        is_ordered(s),
    ensures
        is_ordered(inserted(s, x)),
        inserted(s, x).len() == s.len() + 1,
        inserted(s, x).to_multiset() == s.to_multiset().insert(x),
    decreases s.len(),
{
    broadcast use vstd::seq_lib::group_to_multiset_ensures;

    if s.len() == 0 {
    } else if item_le(s.last(), x) {
        let r = s.push(x);
        assert forall|i: int, j: int| 0 <= i < j < r.len() implies item_le(r[i], r[j]) by {
            if j == s.len() {
                if i < s.len() - 1 {
                    assert(item_le(s[i], s[s.len() - 1]));
                    lemma_item_le_transitive(s[i], s.last(), x);
                }
            } else {
                assert(item_le(s[i], s[j]));
            }
        }
    } else {
        let rest = s.drop_last();
        let last = s.last();
        assert forall|i: int, j: int| 0 <= i < j < rest.len() implies item_le(rest[i], rest[j]) by {
            assert(item_le(s[i], s[j]));
        }
        lemma_inserted(rest, x);
        let mid = inserted(rest, x);
        let r = mid.push(last);
        lemma_item_le_total(last, x);
        assert forall|i: int, j: int| 0 <= i < j < r.len() implies item_le(r[i], r[j]) by {
            if j == mid.len() {
                // every entry of `mid` is `x` or an entry of `rest`
                assert(mid.to_multiset().count(mid[i]) > 0);
                if mid[i] == x {
                } else {
                    assert(rest.to_multiset().count(mid[i]) > 0);
                    let k = choose|k: int| 0 <= k < rest.len() && rest[k] == mid[i];
                    assert(item_le(s[k], s[s.len() - 1]));
                }
            } else {
                assert(item_le(mid[i], mid[j]));
            }
        }
        assert(s =~= rest.push(last));
    }
}

/// Sorting orders the entries and neither adds nor loses one.
pub proof fn lemma_sorted(s: Seq<ItemView>)
    ensures
        is_ordered(sorted(s)),
        sorted(s).len() == s.len(),
        sorted(s).to_multiset() == s.to_multiset(),
    decreases s.len(),
{
    broadcast use vstd::seq_lib::group_to_multiset_ensures;

    if s.len() == 0 {
        assert(s =~= Seq::empty());
    } else {
        lemma_sorted(s.drop_last());
        lemma_inserted(sorted(s.drop_last()), s.last());
        assert(s =~= s.drop_last().push(s.last()));
    }
}

/// In a sorted listing no file stands before a directory, and within one
/// kind the names ascend.
pub proof fn lemma_sorted_groups(s: Seq<ItemView>, i: int, j: int)
    requires
        0 <= i < j < s.len(),
    ensures
        sorted(s)[j].kind == ItemKind::Directory ==> sorted(s)[i].kind == ItemKind::Directory,
        sorted(s)[i].kind == sorted(s)[j].kind ==> lex_le(sorted(s)[i].name, sorted(s)[j].name),
{
    lemma_sorted(s);
    assert(item_le(sorted(s)[i], sorted(s)[j]));
}

/// Tests whether an entry of the given kind and name may stand before
/// another.
fn key_le(kind_a: ItemKind, name_a: &Vec<char>, kind_b: ItemKind, name_b: &Vec<char>) -> (le:
    bool)
    ensures
        le == item_le(
            (ItemView { kind: kind_a, name: name_a@, path: Seq::empty() }),
            (ItemView { kind: kind_b, name: name_b@, path: Seq::empty() }),
        ),
{
    let rank_a: u8 = rank_of(kind_a);
    let rank_b: u8 = rank_of(kind_b);
    if rank_a != rank_b {
        rank_a < rank_b
    } else {
        chars_le(name_a, name_b)
    }
}

/// The place of a kind in the listing.
pub fn rank_of(kind: ItemKind) -> (rank: u8)
    ensures
        rank == kind_rank(kind),
{
    match kind {
        ItemKind::Directory => 0,
        ItemKind::SvgFile => 1,
        ItemKind::FontFile => 2,
    }
}

/// Puts `item` into the ordered `items`, behind the last entry that may
/// stand before it. `names` holds the characters of each entry's name
/// and is kept in step.
fn insert_item(items: &mut Vec<FileSystemItem>, names: &mut Vec<Vec<char>>, item: FileSystemItem)
    requires
        old(names).len() == old(items).len(),
        forall|k: int|
            0 <= k < old(items).len() ==> (#[trigger] old(names)[k])@ == old(items)[k]@.name,
    ensures
        item_views(final(items)@) == inserted(item_views(old(items)@), item@),
        final(names).len() == final(items).len(),
        forall|k: int|
            0 <= k < final(items).len() ==> (#[trigger] final(names)[k])@
                == final(items)[k]@.name,
{
    let kind = item.kind();
    let name = to_chars(item.name().as_str());
    let ghost before = item_views(items@);
    let mut at: usize = items.len();
    while at > 0 && !key_le(items[at - 1].kind(), &names[at - 1], kind, &name)
        invariant
            at <= items.len(),
            names.len() == items.len(),
            before == item_views(items@),
            kind == item@.kind,
            name@ == item@.name,
            forall|k: int| 0 <= k < items.len() ==> (#[trigger] names[k])@ == items[k]@.name,
            forall|k: int| at <= k < items.len() ==> !item_le(#[trigger] before[k], item@),
        decreases at,
    {
        at -= 1;
    }
    proof {
        lemma_inserted_at(before, item@, at as int);
        assert(item_views(items@.insert(at as int, item)) =~= before.insert(at as int, item@));
    }
    items.insert(at, item);
    names.insert(at, name);
}

/// Sorts a listing: directories first, then SVG files, then font files,
/// each group ascending by name in code-point order. Entries of equal
/// kind and name keep their order.
pub fn sort_listing(items: &mut Vec<FileSystemItem>)
    ensures
        item_views(final(items)@) == sorted(item_views(old(items)@)),
{
    let mut taken: Vec<FileSystemItem> = Vec::new();
    core::mem::swap(items, &mut taken);
    let mut names: Vec<Vec<char>> = Vec::new();
    let ghost all = item_views(taken@);
    assert(item_views(items@) =~= sorted(all.take(0)));
    for item in it: taken
        invariant
            item_views(it.seq()) == all,
            names.len() == items.len(),
            forall|k: int| 0 <= k < items.len() ==> (#[trigger] names[k])@ == items[k]@.name,
            item_views(items@) == sorted(all.take(it.index() as int)),
    {
        proof {
            let n = it.index() as int;
            assert(all.take(n + 1).drop_last() =~= all.take(n));
            assert(all.take(n + 1).last() == item@);
        }
        insert_item(items, &mut names, item);
    }
    assert(all.take(all.len() as int) =~= all);
}

} // verus!
