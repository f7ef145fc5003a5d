//! Searching a text with a regular expression.
//!
//! The searches are made by the `regex` crate. What it finds is named
//! here and not spelled out: a contract that speaks of a search speaks of
//! these two names.

use crate::text::{text_of, texts_of};
use vstd::prelude::*;

verus! {

/// What the first capture group holds in the leftmost match of `pattern`
/// in `text`, as `regex::Regex::captures` finds it. `None` where nothing
/// matches, where the group took no part in the match, and where
/// `pattern` is not a regular expression that the crate compiles.
pub uninterp spec fn first_match_group(pattern: Seq<char>, text: Seq<char>) -> Option<Seq<char>>;

/// What the first capture group holds in each of the successive matches of
/// `pattern` in `text`, in the order in which `regex::Regex::captures_iter`
/// yields them; `None` for a match in which the group took no part. Empty
/// where `pattern` is not a regular expression that the crate compiles.
pub uninterp spec fn all_match_groups(pattern: Seq<char>, text: Seq<char>) -> Seq<
    Option<Seq<char>>,
>;

/// Compiles `pattern` with `regex::Regex::new`, searches `text` with
/// `regex::Regex::captures` and hands back a copy of what the first
/// capture group matched. The contract gives that answer its name and
/// claims nothing else of it.
#[verifier::external_body]
pub(crate) fn capture_first(pattern: &str, text: &str) -> (out: Option<String>)
    ensures
        text_of(out) == first_match_group(pattern@, text@),
{
    match regex::Regex::new(pattern) {
        Ok(compiled) => match compiled.captures(text) {
            Some(found) => match found.get(1) {
                Some(group) => Some(group.as_str().to_owned()),
                None => None,
            },
            None => None,
        },
        Err(_) => None,
    }
}

/// Compiles `pattern` with `regex::Regex::new`, searches `text` with
/// `regex::Regex::captures_iter` and hands back, match by match, a copy of
/// what the first capture group matched. The contract gives that answer
/// its name and claims nothing else of it.
#[verifier::external_body]
pub(crate) fn capture_all(pattern: &str, text: &str) -> (out: Vec<Option<String>>)
    ensures
        texts_of(out@) == all_match_groups(pattern@, text@),
{
    match regex::Regex::new(pattern) {
        Ok(compiled) => compiled
            .captures_iter(text)
            .map(|found| found.get(1).map(|group| group.as_str().to_owned()))
            .collect(),
        Err(_) => Vec::new(),
    }
}

} // verus!
