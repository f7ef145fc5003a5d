//! What the browser shows of the path it is at, and where "back" leads.
//!
//! Paths are taken apart by the standard library, by the rules of the
//! platform that the library is built for. Its three answers are named
//! here and not spelled out; what is made of them is proved.

use crate::text::text_of;
use vstd::prelude::*;
use vstd::string::StringExecFns;

verus! {

/// The path without its last component, as `std::path::Path::parent`
/// gives it: `None` where the path ends in a root or is empty.
pub uninterp spec fn parent_of(path: Seq<char>) -> Option<Seq<char>>;

/// The path that leads from `base` to `path`, as
/// `std::path::Path::strip_prefix` gives it: `None` where `base` is no
/// prefix of `path`, component by component.
pub uninterp spec fn relative_to(path: Seq<char>, base: Seq<char>) -> Option<Seq<char>>;

/// The last component of the path, as `std::path::Path::file_name` gives
/// it: `None` where the path ends in `..` or in a root.
pub uninterp spec fn final_component(path: Seq<char>) -> Option<Seq<char>>;

/// Calls `std::path::Path::parent` on the path that `current` spells and
/// hands the answer back as text. The contract gives the answer its name
/// and claims no more of it.
#[verifier::external_body]
fn parent(current: &str) -> (out: Option<String>)
    ensures
        text_of(out) == parent_of(current@),
{
    match std::path::Path::new(current).parent() {
        Some(found) => Some(found.to_string_lossy().into_owned()),
        None => None,
    }
}

/// Calls `std::path::Path::strip_prefix` on the path that `current`
/// spells, with `base` as the prefix, and hands the answer back as text,
/// `None` for its error. The contract gives the answer its name and
/// claims no more of it.
#[verifier::external_body]
fn strip_prefix(current: &str, base: &str) -> (out: Option<String>)
    ensures
        text_of(out) == relative_to(current@, base@),
{
    match std::path::Path::new(current).strip_prefix(base) {
        Ok(rest) => Some(rest.to_string_lossy().into_owned()),
        Err(_) => None,
    }
}

/// Calls `std::path::Path::file_name` on the path that `path` spells and
/// hands the answer back as text. The contract gives the answer its name
/// and claims no more of it.
#[verifier::external_body]
fn file_name(path: &str) -> (out: Option<String>)
    ensures
        text_of(out) == final_component(path@),
{
    match std::path::Path::new(path).file_name() {
        Some(name) => Some(name.to_string_lossy().into_owned()),
        None => None,
    }
}

/// Where "back" leads from `current`, given its parent: to the parent,
/// or nowhere where there is none.
pub open spec fn parent_or_same(current: Seq<char>, parent: Option<Seq<char>>) -> Seq<char> {
    match parent {
        Some(found) => found,
        None => current,
    }
}

/// What is shown for `current` below `root`.
///
/// `relative` is the path from `root` to `current`, `root_name` the last
/// component of `root`. Outside `root` the whole of `current` is shown.
/// At `root` its name is shown, or all of `root` where it has no name.
/// Below `root` the name is followed by `/` and the relative path.
pub open spec fn display_path_of(
    current: Seq<char>,
    root: Seq<char>,
    relative: Option<Seq<char>>,
    root_name: Option<Seq<char>>,
) -> Seq<char> {
    match relative {
        None => current,
        Some(rest) => if rest.len() == 0 {
            match root_name {
                Some(name) => name,
                None => root,
            }
        } else {
            (match root_name {
                Some(name) => name,
                None => Seq::empty(),
            }) + seq!['/'] + rest
        },
    }
}

/// Picks the path that "back" leads to: `parent`, or `current` itself
/// where there is no parent.
pub fn choose_parent(current: &str, parent: Option<String>) -> (out: String)
    ensures
        out@ == parent_or_same(current@, text_of(parent)),
{
    match parent {
        Some(found) => found,
        None => current.to_owned(),
    }
}

/// Composes what is shown for `current` below `root` from the relative
/// path and the root's name.
pub fn compose_display_path(
    current: &str,
    root: &str,
    relative: Option<String>,
    root_name: Option<String>,
) -> (out: String)
    ensures
        out@ == display_path_of(current@, root@, text_of(relative), text_of(root_name)),
{
    match relative {
        None => current.to_owned(),
        Some(rest) => {
            if rest.as_str().unicode_len() == 0 {
                match root_name {
                    Some(name) => name,
                    None => root.to_owned(),
                }
            } else {
                proof {
                    reveal_strlit("/");
                    reveal_strlit("");
                }
                let head: String = match root_name {
                    Some(name) => name,
                    None => "".to_owned(),
                };
                let shown = head.concat("/").concat(rest.as_str());
                assert("/"@ =~= seq!['/']);
                assert(""@ =~= Seq::<char>::empty());
                shown
            }
        },
    }
}

/// The path that "back" leads to from `current`: its parent, or
/// `current` itself where it has none.
pub fn get_parent_path(current: &str) -> (out: String)
    ensures
        out@ == parent_or_same(current@, parent_of(current@)),
{
    choose_parent(current, parent(current))
}

/// What is shown for `current` when the browser is rooted at
/// `root_path`: the root's name, followed below the root by `/` and the
/// path from the root; outside the root, `current` as it is.
pub fn calculate_display_path(current_path: &str, root_path: &str) -> (out: String)
    ensures
        out@ == display_path_of(
            current_path@,
            root_path@,
            relative_to(current_path@, root_path@),
            final_component(root_path@),
        ),
{
    let relative = strip_prefix(current_path, root_path);
    let root_name = file_name(root_path);
    compose_display_path(current_path, root_path, relative, root_name)
}

} // verus!
