//! Character-level primitives on strings: trimming, prefix and suffix
//! tests, searching, counting and replacing substrings, and
//! lexicographic comparison.
//!
//! Every function here is stated over `Seq<char>`, the view of `str` and
//! `String`, and works on a `Vec<char>` obtained once with [`to_chars`].

use vstd::prelude::*;

verus! {

/// The characters of `s`, in order, as an indexable vector.
pub fn to_chars(s: &str) -> (out: Vec<char>)
    ensures
        out@ == s@,
{
    let mut out: Vec<char> = Vec::new();
    for c in it: s.chars()
        invariant
            it.seq() == s@,
            out@ == it.seq().take(it.index() as int),
    {
        out.push(c);
    }
    out
}

/// The view of an optional string.
pub open spec fn text_of(value: Option<String>) -> Option<Seq<char>> {
    match value {
        Some(text) => Some(text@),
        None => None,
    }
}

/// The views of a sequence of optional strings.
pub open spec fn texts_of(values: Seq<Option<String>>) -> Seq<Option<Seq<char>>> {
    values.map_values(|value: Option<String>| text_of(value))
}

/// The views of a sequence of strings.
pub open spec fn views_of(values: Seq<String>) -> Seq<Seq<char>> {
    values.map_values(|value: String| value@)
}

/// Whether two strings hold the same characters.
pub fn same_text(a: &str, b: &str) -> (same: bool)
    ensures
        same == (a@ == b@),
{
    let left = to_chars(a);
    let right = to_chars(b);
    if left.len() != right.len() {
        return false;
    }
    let mut i: usize = 0;
    while i < left.len()
        invariant
            i <= left.len(),
            left.len() == right.len(),
            left@ == a@,
            right@ == b@,
            a@.take(i as int) == b@.take(i as int),
        decreases left.len() - i,
    {
        if left[i] != right[i] {
            return false;
        }
        assert(a@.take(i + 1) == a@.take(i as int).push(a@[i as int]));
        assert(b@.take(i + 1) == b@.take(i as int).push(b@[i as int]));
        i += 1;
    }
    assert(a@.take(i as int) == a@);
    assert(b@.take(i as int) == b@);
    true
}

/// The characters with the Unicode property `White_Space`.
pub open spec fn is_space(c: char) -> bool {
    let n = c as u32;
    ||| 0x09 <= n <= 0x0D
    ||| n == 0x20
    ||| n == 0x85
    ||| n == 0xA0
    ||| n == 0x1680
    ||| 0x2000 <= n <= 0x200A
    ||| n == 0x2028
    ||| n == 0x2029
    ||| n == 0x202F
    ||| n == 0x205F
    ||| n == 0x3000
}

/// Tests a character for the Unicode property `White_Space`.
pub fn is_whitespace(c: char) -> (b: bool)
    ensures
        b == is_space(c),
{
    let n: u32 = c as u32;
    (0x09 <= n && n <= 0x0D) || n == 0x20 || n == 0x85 || n == 0xA0 || n == 0x1680 || (0x2000 <= n
        && n <= 0x200A) || n == 0x2028 || n == 0x2029 || n == 0x202F || n == 0x205F || n == 0x3000
}

/// The first index at or after `i` that holds no whitespace, or the length
/// of `s` when only whitespace follows.
pub open spec fn text_start(s: Seq<char>, i: int) -> int
    decreases s.len() - i,
{
    if 0 <= i < s.len() && is_space(s[i]) {
        text_start(s, i + 1)
    } else {
        i
    }
}

/// The end of the text that remains in `s[lo..j]` once trailing whitespace
/// is cut off.
pub open spec fn text_end(s: Seq<char>, lo: int, j: int) -> int
    decreases j,
{
    if 0 <= lo < j <= s.len() && is_space(s[j - 1]) {
        text_end(s, lo, j - 1)
    } else {
        j
    }
}

/// `s` without its leading and trailing whitespace.
pub open spec fn trimmed(s: Seq<char>) -> Seq<char> {
    let lo = text_start(s, 0);
    s.subrange(lo, text_end(s, lo, s.len() as int))
}

/// `text_start` stays within the sequence and skips only whitespace.
pub proof fn lemma_text_start(s: Seq<char>, i: int)
    requires
        0 <= i <= s.len(),
    ensures
        i <= text_start(s, i) <= s.len(),
        forall|k: int| i <= k < text_start(s, i) ==> is_space(#[trigger] s[k]),
        text_start(s, i) < s.len() ==> !is_space(s[text_start(s, i)]),
    decreases s.len() - i,
{
    if i < s.len() && is_space(s[i]) {
        lemma_text_start(s, i + 1);
    }
}

/// `text_end` stays within `lo..=j` and cuts only whitespace.
pub proof fn lemma_text_end(s: Seq<char>, lo: int, j: int)
    requires
        0 <= lo <= j <= s.len(),
    ensures
        lo <= text_end(s, lo, j) <= j,
        forall|k: int| text_end(s, lo, j) <= k < j ==> is_space(#[trigger] s[k]),
        lo < text_end(s, lo, j) ==> !is_space(s[text_end(s, lo, j) - 1]),
    decreases j,
{
    if lo < j && is_space(s[j - 1]) {
        lemma_text_end(s, lo, j - 1);
    }
}

/// What trimming removes is whitespace, and what it leaves neither starts
/// nor ends with whitespace: `s` is whitespace, then `trimmed(s)`, then
/// whitespace.
pub proof fn lemma_trimmed(s: Seq<char>)
    ensures
        ({
            let lo = text_start(s, 0);
            let hi = text_end(s, lo, s.len() as int);
            &&& 0 <= lo <= hi <= s.len()
            &&& trimmed(s) == s.subrange(lo, hi)
            &&& s == s.subrange(0, lo) + trimmed(s) + s.subrange(hi, s.len() as int)
            &&& forall|k: int| 0 <= k < lo ==> is_space(#[trigger] s[k])
            &&& forall|k: int| hi <= k < s.len() ==> is_space(#[trigger] s[k])
        }),
        trimmed(s).len() > 0 ==> !is_space(trimmed(s).first()) && !is_space(trimmed(s).last()),
{
    lemma_text_start(s, 0);
    let lo = text_start(s, 0);
    lemma_text_end(s, lo, s.len() as int);
    let hi = text_end(s, lo, s.len() as int);
    assert(s =~= s.subrange(0, lo) + s.subrange(lo, hi) + s.subrange(hi, s.len() as int));
}

/// Removes leading and trailing whitespace.
pub fn trim(s: &str) -> (out: String)
    ensures
        out@ == trimmed(s@),
{
    let chars = to_chars(s);
    let n = chars.len();
    let mut lo: usize = 0;
    while lo < n && is_whitespace(chars[lo])
        invariant
            lo <= n,
            n == chars.len(),
            chars@ == s@,
            text_start(s@, 0) == text_start(s@, lo as int),
        decreases n - lo,
    {
        lo += 1;
    }
    let mut hi: usize = n;
    while lo < hi && is_whitespace(chars[hi - 1])
        invariant
            lo <= hi <= n,
            n == chars.len(),
            chars@ == s@,
            text_end(s@, lo as int, n as int) == text_end(s@, lo as int, hi as int),
        decreases hi,
    {
        hi -= 1;
    }
    s.substring_char(lo, hi).to_owned()
}

/// Whether `s` ends with `suffix`.
pub open spec fn has_suffix(s: Seq<char>, suffix: Seq<char>) -> bool {
    suffix.len() <= s.len() && s.subrange(s.len() - suffix.len(), s.len() as int) == suffix
}

/// Tests whether `s` ends with `suffix`.
pub fn ends_with(s: &Vec<char>, suffix: &Vec<char>) -> (b: bool)
    ensures
        b == has_suffix(s@, suffix@),
{
    let n = s.len();
    let m = suffix.len();
    if m > n {
        return false;
    }
    let base = n - m;
    let mut i: usize = 0;
    while i < m
        invariant
            i <= m <= n,
            n == s.len(),
            m == suffix.len(),
            base == n - m,
            s@.subrange(base as int, base + i) == suffix@.take(i as int),
        decreases m - i,
    {
        if s[base + i] != suffix[i] {
            assert(s@.subrange(base as int, n as int)[i as int] != suffix@[i as int]);
            return false;
        }
        assert(s@.subrange(base as int, base + i + 1) == s@.subrange(base as int, base + i).push(
            s@[base + i],
        ));
        assert(suffix@.take(i + 1) == suffix@.take(i as int).push(suffix@[i as int]));
        i += 1;
    }
    assert(suffix@.take(m as int) == suffix@);
    true
}

/// The lower-case form of an ASCII capital letter; every other character
/// is itself.
pub open spec fn ascii_lower(c: char) -> char {
    if 'A' <= c <= 'Z' {
        ((c as u32) + 32) as char
    } else {
        c
    }
}

/// `s` with each ASCII capital letter replaced by its lower-case form.
pub open spec fn ascii_lowered(s: Seq<char>) -> Seq<char> {
    s.map_values(|c: char| ascii_lower(c))
}

/// Lower-cases one ASCII capital letter.
pub fn to_ascii_lower(c: char) -> (out: char)
    ensures
        out == ascii_lower(c),
{
    if 'A' <= c && c <= 'Z' {
        let n: u32 = c as u32;
        let low: u8 = (n + 32) as u8;
        low as char
    } else {
        c
    }
}

/// Whether `s` ends with `suffix` when ASCII letters are compared without
/// regard to case.
pub open spec fn has_suffix_ignoring_ascii_case(s: Seq<char>, suffix: Seq<char>) -> bool {
    has_suffix(ascii_lowered(s), ascii_lowered(suffix))
}

/// Tests whether `s` ends with `suffix`, ASCII letters compared without
/// regard to case.
pub fn ends_with_ignoring_ascii_case(s: &Vec<char>, suffix: &Vec<char>) -> (b: bool)
    ensures
        b == has_suffix_ignoring_ascii_case(s@, suffix@),
{
    let n = s.len();
    let m = suffix.len();
    if m > n {
        return false;
    }
    let base = n - m;
    let ghost ls = ascii_lowered(s@);
    let ghost lx = ascii_lowered(suffix@);
    let mut i: usize = 0;
    while i < m
        invariant
            i <= m <= n,
            n == s.len(),
            m == suffix.len(),
            base == n - m,
            ls == ascii_lowered(s@),
            lx == ascii_lowered(suffix@),
            ls.subrange(base as int, base + i) == lx.take(i as int),
        decreases m - i,
    {
        if to_ascii_lower(s[base + i]) != to_ascii_lower(suffix[i]) {
            assert(ls.subrange(base as int, n as int)[i as int] != lx[i as int]);
            return false;
        }
        assert(ls.subrange(base as int, base + i + 1) == ls.subrange(base as int, base + i).push(
            ls[base + i],
        ));
        assert(lx.take(i + 1) == lx.take(i as int).push(lx[i as int]));
        i += 1;
    }
    assert(lx.take(m as int) == lx);
    true
}

/// Whether `needle` stands in `text` at index `i`.
pub open spec fn occurs_at(text: Seq<char>, needle: Seq<char>, i: int) -> bool {
    0 <= i && i + needle.len() <= text.len() && text.subrange(i, i + needle.len()) == needle
}

/// The number of occurrences of `needle` in `text` from index `i` on,
/// found from left to right, each search resuming behind the occurrence
/// found last, so that counted occurrences do not overlap.
pub open spec fn occurrences_from(text: Seq<char>, needle: Seq<char>, i: int) -> nat
    recommends
        needle.len() > 0,
    decreases text.len() - i,
{
    if needle.len() == 0 || i < 0 || i + needle.len() > text.len() {
        0
    } else if occurs_at(text, needle, i) {
        1 + occurrences_from(text, needle, i + needle.len())
    } else {
        occurrences_from(text, needle, i + 1)
    }
}

/// The number of non-overlapping occurrences of `needle` in `text`.
pub open spec fn occurrences(text: Seq<char>, needle: Seq<char>) -> nat {
    occurrences_from(text, needle, 0)
}

/// Tests whether `needle` stands in `text` at index `i`.
pub fn matches_at(text: &Vec<char>, needle: &Vec<char>, i: usize) -> (b: bool)
    ensures
        b == occurs_at(text@, needle@, i as int),
{
    let n = text.len();
    let m = needle.len();
    if m > n || i > n - m {
        return false;
    }
    let mut k: usize = 0;
    while k < m
        invariant
            k <= m,
            i + m <= n,
            n == text.len(),
            m == needle.len(),
            text@.subrange(i as int, i + k) == needle@.take(k as int),
        decreases m - k,
    {
        if text[i + k] != needle[k] {
            assert(text@.subrange(i as int, i + m)[k as int] != needle@[k as int]);
            return false;
        }
        assert(text@.subrange(i as int, i + k + 1) == text@.subrange(i as int, i + k).push(
            text@[i + k],
        ));
        assert(needle@.take(k + 1) == needle@.take(k as int).push(needle@[k as int]));
        k += 1;
    }
    assert(needle@.take(m as int) == needle@);
    true
}

/// Counts the non-overlapping occurrences of `needle` in `text`.
pub fn count_occurrences(text: &Vec<char>, needle: &Vec<char>) -> (count: usize)
    ensures
        count == occurrences(text@, needle@),
{
    let n = text.len();
    let m = needle.len();
    if m == 0 || m > n {
        return 0;
    }
    let mut count: usize = 0;
    let mut i: usize = 0;
    while i <= n - m
        invariant
            0 < m <= n,
            i <= n,
            n == text.len(),
            m == needle.len(),
            count <= i,
            occurrences(text@, needle@) == count + occurrences_from(text@, needle@, i as int),
        decreases n - i,
    {
        if matches_at(text, needle, i) {
            count += 1;
            i += m;
        } else {
            i += 1;
        }
    }
    count
}

/// Lexicographic order by code point: whether `a` comes before `b` or
/// equals it. A proper prefix comes before the longer sequence.
pub open spec fn lex_le(a: Seq<char>, b: Seq<char>) -> bool
    decreases a.len(),
{
    if a.len() == 0 {
        true
    } else if b.len() == 0 {
        false
    } else if a[0] != b[0] {
        a[0] < b[0]
    } else {
        lex_le(a.drop_first(), b.drop_first())
    }
}

/// Every sequence is at most itself.
pub proof fn lemma_lex_le_reflexive(a: Seq<char>)
    ensures
        lex_le(a, a),
    decreases a.len(),
{
    if a.len() > 0 {
        lemma_lex_le_reflexive(a.drop_first());
    }
}

/// Of two sequences, one is at most the other.
pub proof fn lemma_lex_le_total(a: Seq<char>, b: Seq<char>)
    ensures
        lex_le(a, b) || lex_le(b, a),
    decreases a.len(),
{
    if a.len() > 0 && b.len() > 0 && a[0] == b[0] {
        lemma_lex_le_total(a.drop_first(), b.drop_first());
    }
}

/// The order is transitive.
pub proof fn lemma_lex_le_transitive(a: Seq<char>, b: Seq<char>, c: Seq<char>)
    requires
        lex_le(a, b),
        lex_le(b, c),
    ensures
        lex_le(a, c),
    decreases a.len(),
{
    if a.len() > 0 && b.len() > 0 && c.len() > 0 && a[0] == b[0] && b[0] == c[0] {
        lemma_lex_le_transitive(a.drop_first(), b.drop_first(), c.drop_first());
    }
}

/// Two sequences that are each at most the other are equal.
pub proof fn lemma_lex_le_antisymmetric(a: Seq<char>, b: Seq<char>)
    requires
        lex_le(a, b),
        lex_le(b, a),
    ensures
        a == b,
    decreases a.len(),
{
    if a.len() == 0 {
        assert(b.len() == 0);
        assert(a =~= b);
    } else {
        assert(b.len() > 0);
        assert(a[0] == b[0]);
        let ra = a.drop_first();
        let rb = b.drop_first();
        assert(lex_le(ra, rb));
        assert(lex_le(rb, ra));
        lemma_lex_le_antisymmetric(ra, rb);
        assert(a.len() == b.len());
        assert forall|i: int| 0 <= i < a.len() implies a[i] == b[i] by {
            if i > 0 {
                assert(a[i] == ra[i - 1]);
                assert(b[i] == rb[i - 1]);
            }
        }
        assert(a =~= b);
    }
}

/// Compares two character vectors in lexicographic order by code point.
pub fn chars_le(a: &Vec<char>, b: &Vec<char>) -> (le: bool)
    ensures
        le == lex_le(a@, b@),
{
    let mut i: usize = 0;
    assert(a@.skip(0) == a@ && b@.skip(0) == b@);
    loop
        invariant
            i <= a.len(),
            i <= b.len(),
            lex_le(a@, b@) == lex_le(a@.skip(i as int), b@.skip(i as int)),
        decreases a.len() - i,
    {
        if i >= a.len() {
            return true;
        }
        if i >= b.len() {
            return false;
        }
        let x = a[i];
        let y = b[i];
        assert(a@.skip(i as int)[0] == x && b@.skip(i as int)[0] == y);
        if x != y {
            return x < y;
        }
        assert(a@.skip(i as int).drop_first() == a@.skip(i + 1));
        assert(b@.skip(i as int).drop_first() == b@.skip(i + 1));
        i += 1;
    }
}

/// Whether `s` begins with `prefix`.
pub open spec fn has_prefix(s: Seq<char>, prefix: Seq<char>) -> bool {
    prefix.len() <= s.len() && s.subrange(0, prefix.len() as int) == prefix
}

/// Tests whether `s` begins with `prefix`.
pub fn starts_with(s: &Vec<char>, prefix: &Vec<char>) -> (b: bool)
    ensures
        b == has_prefix(s@, prefix@),
{
    let b = matches_at(s, prefix, 0);
    b
}

/// Whether `needle` stands somewhere in `text`.
pub open spec fn has_part(text: Seq<char>, needle: Seq<char>) -> bool {
    exists|i: int| occurs_at(text, needle, i)
}

/// Tests whether `needle` stands somewhere in `text`.
pub fn contains(text: &Vec<char>, needle: &Vec<char>) -> (b: bool)
    ensures
        b == has_part(text@, needle@),
{
    let n = text.len();
    let m = needle.len();
    if m > n {
        return false;
    }
    let last = n - m;
    let mut i: usize = 0;
    loop
        invariant
            m <= n,
            last == n - m,
            i <= last,
            n == text.len(),
            m == needle.len(),
            forall|k: int| 0 <= k < i ==> !occurs_at(text@, needle@, k),
        decreases last - i,
    {
        if matches_at(text, needle, i) {
            return true;
        }
        if i == last {
            return false;
        }
        i += 1;
    }
}

/// `text` with every occurrence of `from` replaced by `to`, from index `i`
/// on. Occurrences are found from left to right and do not overlap. An
/// empty `from` occurs before every character and at the end.
pub open spec fn replaced_from(text: Seq<char>, from: Seq<char>, to: Seq<char>, i: int) -> Seq<
    char,
>
    decreases text.len() - i,
{
    if i < 0 || i > text.len() {
        Seq::empty()
    } else if from.len() == 0 {
        if i == text.len() {
            to
        } else {
            to + seq![text[i]] + replaced_from(text, from, to, i + 1)
        }
    } else if i + from.len() > text.len() {
        text.skip(i)
    } else if occurs_at(text, from, i) {
        to + replaced_from(text, from, to, i + from.len())
    } else {
        seq![text[i]] + replaced_from(text, from, to, i + 1)
    }
}

/// `text` with every occurrence of `from` replaced by `to`.
pub open spec fn replaced(text: Seq<char>, from: Seq<char>, to: Seq<char>) -> Seq<char> {
    replaced_from(text, from, to, 0)
}

/// Appends the characters of `more` to `out`.
fn append_chars(out: &mut Vec<char>, more: &Vec<char>)
    ensures
        final(out)@ == old(out)@ + more@,
{
    let ghost before = out@;
    let mut k: usize = 0;
    while k < more.len()
        invariant
            k <= more.len(),
            out@ == before + more@.take(k as int),
        decreases more.len() - k,
    {
        out.push(more[k]);
        assert(more@.take(k + 1) =~= more@.take(k as int).push(more@[k as int]));
        k += 1;
    }
    assert(more@.take(more.len() as int) =~= more@);
}

/// Replaces every occurrence of `from` in `text` by `to`.
pub fn replace(text: &Vec<char>, from: &Vec<char>, to: &Vec<char>) -> (out: Vec<char>)
    ensures
        out@ == replaced(text@, from@, to@),
{
    let n = text.len();
    let m = from.len();
    let mut out: Vec<char> = Vec::new();
    let mut i: usize = 0;
    assert(out@ + replaced_from(text@, from@, to@, 0) =~= replaced(text@, from@, to@));
    while m == 0 && i < n || m > 0 && m <= n && i <= n - m
        invariant
            i <= n,
            n == text.len(),
            m == from.len(),
            replaced(text@, from@, to@) == out@ + replaced_from(text@, from@, to@, i as int),
        decreases n - i,
    {
        let ghost before = out@;
        let ghost tail = replaced_from(text@, from@, to@, i as int);
        if m == 0 {
            append_chars(&mut out, to);
            out.push(text[i]);
            proof {
                let rest = replaced_from(text@, from@, to@, i + 1);
                assert(tail == to@ + seq![text@[i as int]] + rest);
                assert(out@ + rest =~= before + tail);
            }
            i += 1;
        } else if matches_at(text, from, i) {
            append_chars(&mut out, to);
            proof {
                let rest = replaced_from(text@, from@, to@, i + m);
                assert(tail == to@ + rest);
                assert(out@ + rest =~= before + tail);
            }
            i += m;
        } else {
            out.push(text[i]);
            proof {
                let rest = replaced_from(text@, from@, to@, i + 1);
                assert(tail == seq![text@[i as int]] + rest);
                assert(out@ + rest =~= before + tail);
            }
            i += 1;
        }
    }
    let ghost before = out@;
    if m == 0 {
        append_chars(&mut out, to);
        assert(replaced_from(text@, from@, to@, i as int) == to@);
    } else {
        let mut k: usize = i;
        while k < n
            invariant
                i <= k <= n,
                n == text.len(),
                out@ == before + text@.subrange(i as int, k as int),
            decreases n - k,
        {
            out.push(text[k]);
            assert(text@.subrange(i as int, k + 1) =~= text@.subrange(i as int, k as int).push(
                text@[k as int],
            ));
            k += 1;
        }
        assert(text@.subrange(i as int, n as int) =~= text@.skip(i as int));
        assert(replaced_from(text@, from@, to@, i as int) == text@.skip(i as int));
    }
    out
}

/// `text` in lower case, as `str::to_lowercase` gives it by the rules of
/// Unicode.
pub uninterp spec fn lowercase_of(text: Seq<char>) -> Seq<char>;

/// `text` in upper case, as `str::to_uppercase` gives it by the rules of
/// Unicode.
pub uninterp spec fn uppercase_of(text: Seq<char>) -> Seq<char>;

/// Calls `str::to_lowercase`. The contract gives the answer its name and
/// claims nothing else of it.
#[verifier::external_body]
pub(crate) fn to_lowercase(text: &str) -> (out: String)
    ensures
        out@ == lowercase_of(text@),
{
    text.to_lowercase()
}

/// Calls `str::to_uppercase`. The contract gives the answer its name and
/// claims nothing else of it.
#[verifier::external_body]
pub(crate) fn to_uppercase(text: &str) -> (out: String)
    ensures
        out@ == uppercase_of(text@),
{
    text.to_uppercase()
}

/// Collects characters into a `String` with `String::from_iter`: the
/// string holds the characters given, in order.
#[verifier::external_body]
pub(crate) fn text_from(chars: &Vec<char>) -> (out: String)
    ensures
        out@ == chars@,
{
    chars.iter().collect()
}

} // verus!
