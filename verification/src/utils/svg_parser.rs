//! What is shown of an SVG file beside its picture: its declared size,
//! its view box, how many paths and path commands it holds, and the
//! colors it uses.
//!
//! The file is treated as text, not as XML. Reading the file is the
//! caller's part; it hands over the text, or the reason why the file
//! could not be read.

use crate::text::{
    ascii_lowered, count_occurrences, occurrences, same_text, text_of, texts_of, to_chars, trim,
    trimmed, views_of,
};
use crate::utils::patterns::{all_match_groups, capture_all, capture_first, first_match_group};
use crate::utils::svg_values::{
    hex_color, is_hex_color, lemma_hex_color_ignores_case, read_color, read_segments,
    read_view_box, segment_outcomes, spelled_color, spelled_view_box, Color, ViewBox,
};
use vstd::prelude::*;
use vstd::string::StringExecFns;

verus! {

/// What was found in an SVG text.
#[derive(Debug, Clone, PartialEq, Eq)]
pub struct SvgInfo {
    /// The first `width="…"` in the root tag.
    pub width: Option<String>,
    /// The first `height="…"` in the root tag.
    pub height: Option<String>,
    /// The first `viewBox="…"` in the root tag, if it spells a view box.
    pub view_box: Option<ViewBox>,
    /// How often `<path` occurs in the text.
    pub path_count: usize,
    /// The colors that the text names, each once, in the order in which
    /// they are first met.
    pub colors_used: Vec<Color>,
    /// How many path commands the `d` attributes of the paths hold.
    pub total_path_commands: usize,
}

/// What an `SvgInfo` is in contracts.
pub struct SvgInfoView {
    pub width: Option<Seq<char>>,
    pub height: Option<Seq<char>>,
    pub view_box: Option<ViewBox>,
    pub path_count: nat,
    pub colors_used: Seq<Color>,
    pub total_path_commands: nat,
}

impl View for SvgInfo {
    type V = SvgInfoView;

    open spec fn view(&self) -> SvgInfoView {
        SvgInfoView {
            width: text_of(self.width),
            height: text_of(self.height),
            view_box: self.view_box,
            path_count: self.path_count as nat,
            colors_used: self.colors_used@,
            total_path_commands: self.total_path_commands as nat,
        }
    }
}

/// Why nothing could be said of an SVG file.
#[derive(Debug, Clone, PartialEq, Eq)]
pub enum ParseError {
    /// The file could not be read as text.
    UnreadableFile { path: String, cause: String },
}

/// The pattern `attr="…"`, the first group being what stands between the
/// double quotes.
pub open spec fn double_quoted(attr: Seq<char>) -> Seq<char> {
    attr + "=\"([^\"]*)\""@
}

/// The pattern `attr='…'`, the first group being what stands between the
/// single quotes.
pub open spec fn single_quoted(attr: Seq<char>) -> Seq<char> {
    attr + "='([^']*)'"@
}

/// The pattern for a declaration `property: value` in a style sheet, the
/// first group being the value up to the next `;`, `}` or whitespace.
pub open spec fn sheet_rule(property: Seq<char>) -> Seq<char> {
    property + ":\\s*([^;}\\s]+)"@
}

/// The pattern for a declaration `property: value` in a `style`
/// attribute, the first group being the value up to the next `;`.
pub open spec fn inline_rule(property: Seq<char>) -> Seq<char> {
    property + ":\\s*([^;]+)"@
}

/// The pattern for the `d` attribute of a `<path` tag, the first group
/// being the path data.
pub open spec fn path_data_pattern() -> Seq<char> {
    "<path[^>]*\\sd=\"([^\"]*)\""@
}

/// The pattern for a `<style>` block, the first group being its body,
/// which may span lines.
pub open spec fn style_block_pattern() -> Seq<char> {
    "(?s)<style[^>]*>(.*?)</style>"@
}

/// `none`
pub open spec fn none_word() -> Seq<char> {
    seq!['n', 'o', 'n', 'e']
}

/// `inherit`
pub open spec fn inherit_word() -> Seq<char> {
    seq!['i', 'n', 'h', 'e', 'r', 'i', 't']
}

/// `currentColor`
pub open spec fn current_color_word() -> Seq<char> {
    seq!['c', 'u', 'r', 'r', 'e', 'n', 't', 'C', 'o', 'l', 'o', 'r']
}

/// The token that a matched value gives: the value without the whitespace
/// around it, unless nothing is left or `none` is left.
pub open spec fn cleaned(group: Option<Seq<char>>) -> Option<Seq<char>> {
    match group {
        Some(raw) => {
            let token = trimmed(raw);
            if token.len() > 0 && token != none_word() {
                Some(token)
            } else {
                None
            }
        },
        None => None,
    }
}

/// The tokens that a sequence of matched values gives, in order.
pub open spec fn tokens_in(groups: Seq<Option<Seq<char>>>) -> Seq<Seq<char>> {
    groups.filter_map(|group: Option<Seq<char>>| cleaned(group))
}

/// The tokens that the matches of `pattern` in `text` give.
pub open spec fn declared(pattern: Seq<char>, text: Seq<char>) -> Seq<Seq<char>> {
    tokens_in(all_match_groups(pattern, text))
}

/// The values that took part in their match, in order.
pub open spec fn present(groups: Seq<Option<Seq<char>>>) -> Seq<Seq<char>> {
    groups.filter_map(|group: Option<Seq<char>>| group)
}

/// What the parts of `parts` give one after the other.
pub open spec fn gathered(
    parts: Seq<Option<Seq<char>>>,
    each: spec_fn(Seq<char>) -> Seq<Seq<char>>,
) -> Seq<Seq<char>>
    decreases parts.len(),
{
    if parts.len() == 0 {
        Seq::empty()
    } else {
        gathered(parts.drop_last(), each) + (match parts.last() {
            Some(part) => each(part),
            None => Seq::empty(),
        })
    }
}

/// The `fill` and `stroke` values that the body of a style sheet
/// declares.
pub open spec fn sheet_tokens(body: Seq<char>) -> Seq<Seq<char>> {
    declared(sheet_rule("fill"@), body) + declared(sheet_rule("stroke"@), body)
}

/// The `fill` and `stroke` values that the value of a `style` attribute
/// declares.
pub open spec fn inline_tokens(value: Seq<char>) -> Seq<Seq<char>> {
    declared(inline_rule("fill"@), value) + declared(inline_rule("stroke"@), value)
}

/// The values of the attribute `attr`, those in double quotes first.
pub open spec fn attribute_tokens(content: Seq<char>, attr: Seq<char>) -> Seq<Seq<char>> {
    declared(double_quoted(attr), content) + declared(single_quoted(attr), content)
}

/// The values of the style sheets of `content`, block by block.
pub open spec fn all_sheet_tokens(content: Seq<char>) -> Seq<Seq<char>> {
    gathered(
        all_match_groups(style_block_pattern(), content),
        |body: Seq<char>| sheet_tokens(body),
    )
}

/// The values of the six attributes that hold a color.
pub open spec fn all_attribute_tokens(content: Seq<char>) -> Seq<Seq<char>> {
    attribute_tokens(content, "fill"@) + attribute_tokens(content, "stroke"@) + attribute_tokens(
        content,
        "stop-color"@,
    ) + attribute_tokens(content, "color"@) + attribute_tokens(content, "flood-color"@)
        + attribute_tokens(content, "lighting-color"@)
}

/// The values of the `style` attributes of `content`, attribute by
/// attribute.
pub open spec fn all_inline_tokens(content: Seq<char>) -> Seq<Seq<char>> {
    gathered(
        all_match_groups(double_quoted("style"@), content),
        |value: Seq<char>| inline_tokens(value),
    )
}

/// Every token of `content` that may spell a color: those of the style
/// sheets, then those of the color attributes, then those of the `style`
/// attributes.
pub open spec fn color_tokens(content: Seq<char>) -> Seq<Seq<char>> {
    all_sheet_tokens(content) + all_attribute_tokens(content) + all_inline_tokens(content)
}

/// The words that stand where a color may stand and name none.
pub open spec fn is_keyword(token: Seq<char>) -> bool {
    token == none_word() || token == inherit_word() || token == current_color_word()
}

/// The color that a token stands for, if any.
pub open spec fn recognized(token: Seq<char>) -> Option<Color> {
    if is_keyword(token) {
        None
    } else {
        spelled_color(token)
    }
}

/// `colors` with `color` added behind, unless it is there already.
pub open spec fn with_color(colors: Seq<Color>, color: Color) -> Seq<Color> {
    if colors.contains(color) {
        colors
    } else {
        colors.push(color)
    }
}

/// The colors among `parsed`, each once, in the order of their first
/// occurrence.
pub open spec fn distinct(parsed: Seq<Option<Color>>) -> Seq<Color>
    decreases parsed.len(),
{
    if parsed.len() == 0 {
        Seq::empty()
    } else {
        match parsed.last() {
            Some(color) => with_color(distinct(parsed.drop_last()), color),
            None => distinct(parsed.drop_last()),
        }
    }
}

/// The colors that the tokens stand for, each once, in the order of
/// their first occurrence.
pub open spec fn colors_of(tokens: Seq<Seq<char>>) -> Seq<Color> {
    distinct(tokens.map_values(|token: Seq<char>| recognized(token)))
}

/// How many of the outcomes are commands.
pub open spec fn count_true(outcomes: Seq<bool>) -> nat
    decreases outcomes.len(),
{
    if outcomes.len() == 0 {
        0
    } else {
        count_true(outcomes.drop_last()) + if outcomes.last() {
            1nat
        } else {
            0nat
        }
    }
}

/// How many commands the path data hold together.
pub open spec fn commands_in(data: Seq<Seq<char>>) -> nat
    decreases data.len(),
{
    if data.len() == 0 {
        0
    } else {
        commands_in(data.drop_last()) + count_true(segment_outcomes(data.last()))
    }
}

/// The path data of the `<path` tags of `content`.
pub open spec fn path_data(content: Seq<char>) -> Seq<Seq<char>> {
    present(all_match_groups(path_data_pattern(), content))
}

/// `<path`
pub open spec fn path_tag() -> Seq<char> {
    seq!['<', 'p', 'a', 't', 'h']
}

/// Whether an element opens at index `i` of `text`: a `<` stands there
/// that begins neither a declaration (`<?`) nor a comment or document
/// type (`<!`).
pub open spec fn opens_element(text: Seq<char>, i: int) -> bool {
    &&& 0 <= i < text.len()
    &&& text[i] == '<'
    &&& !(i + 1 < text.len() && (text[i + 1] == '?' || text[i + 1] == '!'))
}

/// The first index at or after `i` at which an element opens, or the
/// length of `text` where none opens.
pub open spec fn tag_start(text: Seq<char>, i: int) -> int
    decreases text.len() - i,
{
    if 0 <= i < text.len() && !opens_element(text, i) {
        tag_start(text, i + 1)
    } else {
        i
    }
}

/// The index behind the first `>` at or after `i`, or the length of
/// `text` where no `>` follows.
pub open spec fn tag_end(text: Seq<char>, i: int) -> int
    decreases text.len() - i,
{
    if 0 <= i < text.len() {
        if text[i] == '>' {
            i + 1
        } else {
            tag_end(text, i + 1)
        }
    } else {
        i
    }
}

/// The text of the root tag: from the first `<` that opens an element up
/// to the next `>`, both included; up to the end of the text where no `>`
/// follows; empty where no element opens.
pub open spec fn root_tag_text(text: Seq<char>) -> Seq<char> {
    let start = tag_start(text, 0);
    if start < text.len() {
        text.subrange(start, tag_end(text, start))
    } else {
        Seq::empty()
    }
}

/// Where the root tag stands: no element opens before it, it begins with
/// `<`, and it holds no `>` but at its end.
pub proof fn lemma_root_tag(text: Seq<char>)
    ensures
        ({
            let start = tag_start(text, 0);
            let end = tag_end(text, start);
            &&& 0 <= start <= text.len()
            &&& forall|k: int| 0 <= k < start ==> !#[trigger] opens_element(text, k)
            &&& start < text.len() ==> {
                &&& opens_element(text, start)
                &&& start < end <= text.len()
                &&& root_tag_text(text) == text.subrange(start, end)
                &&& root_tag_text(text)[0] == '<'
                &&& forall|k: int| start <= k < end - 1 ==> #[trigger] text[k] != '>'
                &&& end < text.len() ==> text[end - 1] == '>'
            }
            &&& start == text.len() ==> root_tag_text(text).len() == 0
        }),
{
    lemma_tag_start(text, 0);
    let start = tag_start(text, 0);
    if start < text.len() {
        lemma_tag_end(text, start);
        assert(text.subrange(start, tag_end(text, start))[0] == text[start]);
    }
}

/// `tag_start` stays within the text and passes over nothing at which an
/// element opens.
pub proof fn lemma_tag_start(text: Seq<char>, i: int)
    requires
        0 <= i <= text.len(),
    ensures
        i <= tag_start(text, i) <= text.len(),
        forall|k: int| i <= k < tag_start(text, i) ==> !#[trigger] opens_element(text, k),
        tag_start(text, i) < text.len() ==> opens_element(text, tag_start(text, i)),
    decreases text.len() - i,
{
    if i < text.len() && !opens_element(text, i) {
        lemma_tag_start(text, i + 1);
    }
}

/// `tag_end` stays within the text and passes over no `>` but the one it
/// stops behind.
pub proof fn lemma_tag_end(text: Seq<char>, i: int)
    requires
        0 <= i <= text.len(),
    ensures
        i <= tag_end(text, i) <= text.len(),
        i < text.len() ==> i < tag_end(text, i),
        forall|k: int| i <= k < tag_end(text, i) - 1 ==> #[trigger] text[k] != '>',
        i < text.len() && tag_end(text, i) < text.len() ==> text[tag_end(text, i) - 1] == '>',
    decreases text.len() - i,
{
    if i < text.len() && text[i] != '>' {
        lemma_tag_end(text, i + 1);
    }
}

/// What is found in the SVG text `content`: the size and the view box in
/// its root tag, the paths and the colors in the whole of it.
pub open spec fn svg_info_of(content: Seq<char>) -> SvgInfoView {
    let root = root_tag_text(content);
    SvgInfoView {
        width: first_match_group(double_quoted("width"@), root),
        height: first_match_group(double_quoted("height"@), root),
        view_box: match first_match_group(double_quoted("viewBox"@), root) {
            Some(text) => spelled_view_box(text),
            None => None,
        },
        path_count: occurrences(content, path_tag()),
        colors_used: colors_of(color_tokens(content)),
        total_path_commands: commands_in(path_data(content)),
    }
}

/// Appends to `tokens` the token of each matched value: the value
/// trimmed, unless that is empty or `none`.
pub fn keep_tokens(tokens: &mut Vec<String>, groups: &Vec<Option<String>>)
    ensures
        views_of(final(tokens)@) == views_of(old(tokens)@) + tokens_in(texts_of(groups@)),
{
    let ghost before = views_of(tokens@);
    let ghost all = texts_of(groups@);
    let ghost pick = |group: Option<Seq<char>>| cleaned(group);
    assert(all.take(0).filter_map(pick) =~= Seq::empty());
    assert(views_of(tokens@) =~= before + all.take(0).filter_map(pick));
    let mut i: usize = 0;
    while i < groups.len()
        invariant
            i <= groups.len(),
            all == texts_of(groups@),
            pick == |group: Option<Seq<char>>| cleaned(group),
            views_of(tokens@) =~= before + all.take(i as int).filter_map(pick),
        decreases groups.len() - i,
    {
        let ghost shown = views_of(tokens@);
        proof {
            all.lemma_filter_map_take_succ(pick, i as int);
            assert(pick(all[i as int]) == cleaned(all[i as int]));
            assert(all[i as int] == text_of(groups@[i as int]));
        }
        match &groups[i] {
            Some(raw) => {
                let token = trim(raw.as_str());
                proof {
                    reveal_strlit("none");
                }
                assert("none"@ =~= none_word());
                if token.as_str().unicode_len() > 0 && !same_text(token.as_str(), "none") {
                    tokens.push(token);
                    assert(views_of(tokens@) =~= shown.push(token@));
                }
            },
            None => {},
        }
        i += 1;
    }
    assert(all.take(all.len() as int) =~= all);
}

/// Appends to `tokens` the tokens that the matches of `pattern` in
/// `text` give.
fn add_declared(tokens: &mut Vec<String>, pattern: &str, text: &str)
    ensures
        views_of(final(tokens)@) == views_of(old(tokens)@) + declared(pattern@, text@),
{
    let groups = capture_all(pattern, text);
    keep_tokens(tokens, &groups);
}

/// Appends to `tokens` the tokens that the matches of `property`
/// followed by `rule` give in `text`.
fn add_rule(tokens: &mut Vec<String>, property: &str, rule: &str, text: &str)
    ensures
        views_of(final(tokens)@) == views_of(old(tokens)@) + declared(property@ + rule@, text@),
{
    let pattern = String::from_str(property).concat(rule);
    add_declared(tokens, pattern.as_str(), text);
}

/// Appends to `tokens` the `fill` and `stroke` values that a style sheet
/// declares.
fn add_sheet_tokens(tokens: &mut Vec<String>, body: &str)
    ensures
        views_of(final(tokens)@) == views_of(old(tokens)@) + sheet_tokens(body@),
{
    let ghost before = views_of(tokens@);
    add_rule(tokens, "fill", ":\\s*([^;}\\s]+)", body);
    add_rule(tokens, "stroke", ":\\s*([^;}\\s]+)", body);
    assert(views_of(tokens@) =~= before + sheet_tokens(body@));
}

/// Appends to `tokens` the `fill` and `stroke` values that a `style`
/// attribute declares.
fn add_inline_tokens(tokens: &mut Vec<String>, value: &str)
    ensures
        views_of(final(tokens)@) == views_of(old(tokens)@) + inline_tokens(value@),
{
    let ghost before = views_of(tokens@);
    add_rule(tokens, "fill", ":\\s*([^;]+)", value);
    add_rule(tokens, "stroke", ":\\s*([^;]+)", value);
    assert(views_of(tokens@) =~= before + inline_tokens(value@));
}

/// Appends to `tokens` the values of the attribute `attr`, those in
/// double quotes first.
fn add_attribute_tokens(tokens: &mut Vec<String>, content: &str, attr: &str)
    ensures
        views_of(final(tokens)@) == views_of(old(tokens)@) + attribute_tokens(content@, attr@),
{
    let ghost before = views_of(tokens@);
    add_rule(tokens, attr, "=\"([^\"]*)\"", content);
    add_rule(tokens, attr, "='([^']*)'", content);
    assert(views_of(tokens@) =~= before + attribute_tokens(content@, attr@));
}

/// The first value that `content` gives the attribute `attr` in double
/// quotes. For the attributes of an SVG as a whole, `content` is its root
/// tag.
pub fn extract_attribute(content: &str, attr: &str) -> (out: Option<String>)
    ensures
        text_of(out) == first_match_group(double_quoted(attr@), content@),
{
    let pattern = String::from_str(attr).concat("=\"([^\"]*)\"");
    capture_first(pattern.as_str(), content)
}

/// The matched values that took part in their match, in order.
pub fn keep_present(groups: &Vec<Option<String>>) -> (out: Vec<String>)
    ensures
        views_of(out@) == present(texts_of(groups@)),
{
    let mut out: Vec<String> = Vec::new();
    let ghost all = texts_of(groups@);
    let ghost pick = |group: Option<Seq<char>>| group;
    assert(all.take(0).filter_map(pick) =~= Seq::empty());
    let mut i: usize = 0;
    while i < groups.len()
        invariant
            i <= groups.len(),
            all == texts_of(groups@),
            pick == |group: Option<Seq<char>>| group,
            views_of(out@) =~= all.take(i as int).filter_map(pick),
        decreases groups.len() - i,
    {
        let ghost shown = views_of(out@);
        proof {
            all.lemma_filter_map_take_succ(pick, i as int);
            assert(pick(all[i as int]) == all[i as int]);
            assert(all[i as int] == text_of(groups@[i as int]));
        }
        match &groups[i] {
            Some(data) => {
                let copy = data.clone();
                out.push(copy);
                assert(views_of(out@) =~= shown.push(copy@));
            },
            None => {},
        }
        i += 1;
    }
    assert(all.take(all.len() as int) =~= all);
    out
}

/// The path data of every `<path` tag of `content`, in order.
pub fn extract_all_path_data(content: &str) -> (out: Vec<String>)
    ensures
        views_of(out@) == path_data(content@),
{
    let groups = capture_all("<path[^>]*\\sd=\"([^\"]*)\"", content);
    keep_present(&groups)
}

/// Every token of `content` that may spell a color: the `fill` and
/// `stroke` values of the style sheets, then the values of the six color
/// attributes, then the `fill` and `stroke` values of the `style`
/// attributes. Each is trimmed; empty values and `none` are left out.
pub fn extract_all_colors(content: &str) -> (out: Vec<String>)
    ensures
        views_of(out@) == color_tokens(content@),
{
    let mut out: Vec<String> = Vec::new();
    assert(views_of(out@) =~= Seq::empty());

    let sheets = capture_all("(?s)<style[^>]*>(.*?)</style>", content);
    let ghost sheet_bodies = texts_of(sheets@);
    let ghost per_sheet = |body: Seq<char>| sheet_tokens(body);
    let mut i: usize = 0;
    while i < sheets.len()
        invariant
            i <= sheets.len(),
            sheet_bodies == texts_of(sheets@),
            per_sheet == |body: Seq<char>| sheet_tokens(body),
            views_of(out@) =~= gathered(sheet_bodies.take(i as int), per_sheet),
        decreases sheets.len() - i,
    {
        proof {
            assert(sheet_bodies.take(i + 1).drop_last() =~= sheet_bodies.take(i as int));
            assert(sheet_bodies.take(i + 1).last() == text_of(sheets@[i as int]));
        }
        match &sheets[i] {
            Some(body) => {
                add_sheet_tokens(&mut out, body.as_str());
            },
            None => {},
        }
        i += 1;
    }
    assert(sheet_bodies.take(sheets.len() as int) =~= sheet_bodies);
    assert(views_of(out@) == all_sheet_tokens(content@));

    let ghost from_sheets = views_of(out@);
    add_attribute_tokens(&mut out, content, "fill");
    add_attribute_tokens(&mut out, content, "stroke");
    add_attribute_tokens(&mut out, content, "stop-color");
    add_attribute_tokens(&mut out, content, "color");
    add_attribute_tokens(&mut out, content, "flood-color");
    add_attribute_tokens(&mut out, content, "lighting-color");
    assert(views_of(out@) =~= from_sheets + all_attribute_tokens(content@));

    let ghost from_attributes = views_of(out@);
    let pattern = String::from_str("style").concat("=\"([^\"]*)\"");
    let styles = capture_all(pattern.as_str(), content);
    let ghost style_values = texts_of(styles@);
    let ghost per_style = |value: Seq<char>| inline_tokens(value);
    let mut j: usize = 0;
    assert(style_values.take(0) =~= Seq::empty());
    while j < styles.len()
        invariant
            j <= styles.len(),
            style_values == texts_of(styles@),
            per_style == |value: Seq<char>| inline_tokens(value),
            views_of(out@) =~= from_attributes + gathered(style_values.take(j as int), per_style),
        decreases styles.len() - j,
    {
        proof {
            assert(style_values.take(j + 1).drop_last() =~= style_values.take(j as int));
            assert(style_values.take(j + 1).last() == text_of(styles@[j as int]));
        }
        match &styles[j] {
            Some(value) => {
                add_inline_tokens(&mut out, value.as_str());
            },
            None => {},
        }
        j += 1;
    }
    assert(style_values.take(styles.len() as int) =~= style_values);
    out
}

/// Tests a token for the words `none`, `inherit` and `currentColor`.
pub fn is_color_keyword(token: &str) -> (b: bool)
    ensures
        b == is_keyword(token@),
{
    proof {
        reveal_strlit("none");
        reveal_strlit("inherit");
        reveal_strlit("currentColor");
    }
    assert("none"@ =~= none_word());
    assert("inherit"@ =~= inherit_word());
    assert("currentColor"@ =~= current_color_word());
    same_text(token, "none") || same_text(token, "inherit") || same_text(token, "currentColor")
}

/// The color that a token stands for: none for the three keywords, and
/// else the color that the token spells, if it spells one.
pub fn recognize(token: &str) -> (out: Option<Color>)
    ensures
        out == recognized(token@),
{
    if is_color_keyword(token) {
        None
    } else {
        read_color(token)
    }
}

/// Tests whether `color` is among `colors`.
pub fn has_color(colors: &Vec<Color>, color: Color) -> (found: bool)
    ensures
        found == colors@.contains(color),
{
    let mut i: usize = 0;
    while i < colors.len()
        invariant
            i <= colors.len(),
            forall|k: int| 0 <= k < i ==> colors@[k] != color,
        decreases colors.len() - i,
    {
        if colors[i] == color {
            return true;
        }
        i += 1;
    }
    false
}

/// The colors among `parsed`, each once, in the order of their first
/// occurrence.
pub fn distinct_colors(parsed: &Vec<Option<Color>>) -> (out: Vec<Color>)
    ensures
        out@ == distinct(parsed@),
{
    let mut out: Vec<Color> = Vec::new();
    let mut i: usize = 0;
    assert(parsed@.take(0) =~= Seq::empty());
    while i < parsed.len()
        invariant
            i <= parsed.len(),
            out@ == distinct(parsed@.take(i as int)),
        decreases parsed.len() - i,
    {
        proof {
            assert(parsed@.take(i + 1).drop_last() =~= parsed@.take(i as int));
        }
        match parsed[i] {
            Some(color) => {
                if !has_color(&out, color) {
                    out.push(color);
                }
            },
            None => {},
        }
        i += 1;
    }
    assert(parsed@.take(parsed.len() as int) =~= parsed@);
    out
}

/// The colors that the tokens stand for, each once, in the order of
/// their first occurrence.
pub fn collect_colors(tokens: &Vec<String>) -> (out: Vec<Color>)
    ensures
        out@ == colors_of(views_of(tokens@)),
{
    let mut parsed: Vec<Option<Color>> = Vec::new();
    let mut i: usize = 0;
    let ghost all = views_of(tokens@).map_values(|token: Seq<char>| recognized(token));
    while i < tokens.len()
        invariant
            i <= tokens.len(),
            all == views_of(tokens@).map_values(|token: Seq<char>| recognized(token)),
            parsed@ =~= all.take(i as int),
        decreases tokens.len() - i,
    {
        parsed.push(recognize(tokens[i].as_str()));
        i += 1;
    }
    assert(all.take(tokens.len() as int) =~= all);
    distinct_colors(&parsed)
}

/// Counts the commands among the outcomes of parsing one path.
pub fn count_commands(outcomes: &Vec<bool>) -> (count: usize)
    ensures
        count == count_true(outcomes@),
{
    let mut count: usize = 0;
    let mut i: usize = 0;
    assert(outcomes@.take(0) =~= Seq::empty());
    while i < outcomes.len()
        invariant
            i <= outcomes.len(),
            count <= i,
            count == count_true(outcomes@.take(i as int)),
        decreases outcomes.len() - i,
    {
        proof {
            assert(outcomes@.take(i + 1).drop_last() =~= outcomes@.take(i as int));
        }
        if outcomes[i] {
            count += 1;
        }
        i += 1;
    }
    assert(outcomes@.take(outcomes.len() as int) =~= outcomes@);
    count
}

/// The commands of two runs of outcomes are those of the first and those
/// of the second.
pub proof fn lemma_count_true_concat(a: Seq<bool>, b: Seq<bool>)
    ensures
        count_true(a + b) == count_true(a) + count_true(b),
    decreases b.len(),
{
    if b.len() == 0 {
        assert(a + b =~= a);
    } else {
        assert((a + b).drop_last() =~= a + b.drop_last());
        lemma_count_true_concat(a, b.drop_last());
    }
}

/// Counts the commands that the path data hold together.
///
/// The outcomes of all paths are gathered in one vector before they are
/// counted, so that the count is bounded by a length.
pub fn count_all_commands(data: &Vec<String>) -> (total: usize)
    ensures
        total == commands_in(views_of(data@)),
{
    let mut outcomes: Vec<bool> = Vec::new();
    let mut i: usize = 0;
    let ghost all = views_of(data@);
    assert(all.take(0) =~= Seq::empty());
    while i < data.len()
        invariant
            i <= data.len(),
            all == views_of(data@),
            count_true(outcomes@) == commands_in(all.take(i as int)),
        decreases data.len() - i,
    {
        let ghost gathered = outcomes@;
        let mut more = read_segments(data[i].as_str());
        proof {
            assert(all.take(i + 1).drop_last() =~= all.take(i as int));
            assert(all.take(i + 1).last() == data@[i as int]@);
            lemma_count_true_concat(gathered, more@);
        }
        outcomes.append(&mut more);
        i += 1;
    }
    assert(all.take(data.len() as int) =~= all);
    count_commands(&outcomes)
}

/// Tests whether an element opens at index `i`.
pub fn opens_at(text: &Vec<char>, i: usize) -> (b: bool)
    ensures
        b == opens_element(text@, i as int),
{
    if i >= text.len() || text[i] != '<' {
        return false;
    }
    if i + 1 < text.len() {
        text[i + 1] != '?' && text[i + 1] != '!'
    } else {
        true
    }
}

/// Cuts the root tag out of an SVG text: the text from the first `<` that
/// opens an element up to the next `>`.
pub fn root_tag(content: &str) -> (out: String)
    ensures
        out@ == root_tag_text(content@),
{
    let chars = to_chars(content);
    let n = chars.len();
    let mut start: usize = 0;
    while start < n && !opens_at(&chars, start)
        invariant
            start <= n,
            n == chars.len(),
            chars@ == content@,
            tag_start(content@, 0) == tag_start(content@, start as int),
        decreases n - start,
    {
        start += 1;
    }
    if start >= n {
        return String::new();
    }
    let mut end: usize = start;
    while end < n && chars[end] != '>'
        invariant
            start <= end <= n,
            n == chars.len(),
            chars@ == content@,
            tag_end(content@, start as int) == tag_end(content@, end as int),
        decreases n - end,
    {
        end += 1;
    }
    if end < n {
        end += 1;
    }
    content.substring_char(start, end).to_owned()
}

/// What is found in the SVG text `content`.
pub fn describe_svg(content: &str) -> (info: SvgInfo)
    ensures
        info@ == svg_info_of(content@),
{
    let root = root_tag(content);
    let view_box = match extract_attribute(root.as_str(), "viewBox") {
        Some(text) => read_view_box(text.as_str()),
        None => None,
    };
    let width = extract_attribute(root.as_str(), "width");
    let height = extract_attribute(root.as_str(), "height");
    proof {
        reveal_strlit("<path");
    }
    let tag = to_chars("<path");
    assert(tag@ =~= path_tag());
    let path_count = count_occurrences(&to_chars(content), &tag);
    let total_path_commands = count_all_commands(&extract_all_path_data(content));
    let colors_used = collect_colors(&extract_all_colors(content));
    SvgInfo { width, height, view_box, path_count, colors_used, total_path_commands }
}

/// What `parse_svg_info` hands back, in contracts: a description, or the
/// path and the reason of the failure.
pub enum ParseView {
    Described(SvgInfoView),
    Unreadable { path: Seq<char>, cause: Seq<char> },
}

/// The view of what `parse_svg_info` hands back.
pub open spec fn parse_view(out: Result<SvgInfo, ParseError>) -> ParseView {
    match out {
        Ok(info) => ParseView::Described(info@),
        Err(ParseError::UnreadableFile { path, cause }) => ParseView::Unreadable {
            path: path@,
            cause: cause@,
        },
    }
}

/// What is said of the file at `path`, `read` being what reading it gave:
/// its text, or the reason why it could not be read.
pub open spec fn parsed(path: Seq<char>, read: Result<Seq<char>, Seq<char>>) -> ParseView {
    match read {
        Ok(content) => ParseView::Described(svg_info_of(content)),
        Err(cause) => ParseView::Unreadable { path, cause },
    }
}

/// The view of what reading a file gave.
pub open spec fn read_view(read: Result<String, String>) -> Result<Seq<char>, Seq<char>> {
    match read {
        Ok(content) => Ok(content@),
        Err(cause) => Err(cause@),
    }
}

/// Says what is found in the SVG file at `path`.
///
/// `read` is what reading the whole file as text gave: the text, or the
/// reason for the failure. The call fails exactly when the read failed,
/// with the path and the reason. A path or a color that cannot be parsed
/// is left out and is no failure.
pub fn parse_svg_info(path: &str, read: Result<String, String>) -> (out: Result<
    SvgInfo,
    ParseError,
>)
    ensures
        parse_view(out) == parsed(path@, read_view(read)),
{
    match read {
        Ok(content) => Ok(describe_svg(content.as_str())),
        Err(cause) => Err(ParseError::UnreadableFile { path: path.to_owned(), cause }),
    }
}

/// Describing the same file twice gives the same: whatever two calls of
/// `parse_svg_info` hand back for one path and one outcome of the read,
/// the two results agree.
pub proof fn lemma_parse_repeatable(
    path: Seq<char>,
    read: Result<Seq<char>, Seq<char>>,
    first: Result<SvgInfo, ParseError>,
    second: Result<SvgInfo, ParseError>,
)
    requires
        parse_view(first) == parsed(path, read),
        parse_view(second) == parsed(path, read),
    ensures
        parse_view(first) == parse_view(second),
        first is Ok <==> read is Ok,
        first is Ok <==> second is Ok,
{
}

/// What `distinct` keeps: every color of `parsed` and no other, none
/// twice.
pub proof fn lemma_distinct(parsed: Seq<Option<Color>>)
    ensures
        distinct(parsed).no_duplicates(),
        forall|color: Color| #[trigger]
            distinct(parsed).contains(color) <==> parsed.contains(Some(color)),
    decreases parsed.len(),
{
    if parsed.len() > 0 {
        let rest = parsed.drop_last();
        lemma_distinct(rest);
        let kept = distinct(rest);
        assert forall|color: Color| #[trigger]
            distinct(parsed).contains(color) <==> parsed.contains(Some(color)) by {
            if parsed.contains(Some(color)) {
                let i = choose|i: int| 0 <= i < parsed.len() && parsed[i] == Some(color);
                if i < rest.len() {
                    assert(rest[i] == Some(color));
                    assert(rest.contains(Some(color)));
                    assert(kept.contains(color));
                    let k = choose|k: int| 0 <= k < kept.len() && kept[k] == color;
                    assert(distinct(parsed)[k] == color);
                } else {
                    assert(parsed.last() == Some(color));
                    if !kept.contains(color) {
                        assert(kept.push(color)[kept.len() as int] == color);
                    }
                }
            }
            if distinct(parsed).contains(color) {
                let all = distinct(parsed);
                let k = choose|k: int| 0 <= k < all.len() && all[k] == color;
                if k < kept.len() {
                    assert(kept[k] == color);
                    assert(kept.contains(color));
                    let i = choose|i: int| 0 <= i < rest.len() && rest[i] == Some(color);
                    assert(parsed[i] == Some(color));
                } else {
                    assert(parsed[parsed.len() - 1] == Some(color));
                }
            }
        }
    }
}

/// `distinct` keeps the order of first occurrence: the colors of a
/// beginning of `parsed` are a beginning of the colors of `parsed`.
pub proof fn lemma_distinct_order(parsed: Seq<Option<Color>>, n: int)
    requires
        0 <= n <= parsed.len(),
    ensures
        distinct(parsed.take(n)).is_prefix_of(distinct(parsed)),
    decreases parsed.len() - n,
{
    if n == parsed.len() {
        assert(parsed.take(n) =~= parsed);
    } else {
        lemma_distinct_order(parsed, n + 1);
        assert(parsed.take(n + 1).drop_last() =~= parsed.take(n));
        assert(distinct(parsed.take(n)).is_prefix_of(distinct(parsed.take(n + 1))));
    }
}

/// The colors of an SVG text: none occurs twice, and a color is among
/// them exactly if a token of the text that is none of the three keywords
/// spells it.
pub proof fn lemma_colors_used(content: Seq<char>)
    ensures
        svg_info_of(content).colors_used.no_duplicates(),
        forall|color: Color| #[trigger]
            svg_info_of(content).colors_used.contains(color) <==> exists|token: Seq<char>| #[trigger]
                color_tokens(content).contains(token) && !is_keyword(token) && spelled_color(token)
                    == Some(color),
{
    let tokens = color_tokens(content);
    let parsed = tokens.map_values(|token: Seq<char>| recognized(token));
    lemma_distinct(parsed);
    assert forall|color: Color| #[trigger]
        svg_info_of(content).colors_used.contains(color) <==> exists|token: Seq<char>| #[trigger]
            tokens.contains(token) && !is_keyword(token) && spelled_color(token) == Some(
                color,
            ) by {
        if distinct(parsed).contains(color) {
            assert(parsed.contains(Some(color)));
            let i = choose|i: int| 0 <= i < parsed.len() && parsed[i] == Some(color);
            assert(tokens.contains(tokens[i]));
            assert(recognized(tokens[i]) == Some(color));
        }
        if exists|token: Seq<char>| #[trigger]
            tokens.contains(token) && !is_keyword(token) && spelled_color(token) == Some(color) {
            let token = choose|token: Seq<char>| #[trigger]
                tokens.contains(token) && !is_keyword(token) && spelled_color(token) == Some(
                    color,
                );
            let i = choose|i: int| 0 <= i < tokens.len() && tokens[i] == token;
            assert(parsed[i] == Some(color));
            assert(parsed.contains(Some(color)));
        }
    }
}

/// The case of the letters of a hex color makes no second color: of a
/// token `#rrggbb` and a token that differs from it only in the case of
/// letters, both stand for the color with those three bytes, and the two
/// together give that one color.
pub proof fn lemma_hex_case_is_one_color(first: Seq<char>, second: Seq<char>)
    requires
        is_hex_color(first),
        ascii_lowered(first) == ascii_lowered(second),
    ensures
        recognized(first) == Some(hex_color(first)),
        recognized(second) == Some(hex_color(first)),
        colors_of(seq![first, second]) == seq![hex_color(first)],
{
    lemma_hex_color_ignores_case(first, second);
    let color = hex_color(first);
    assert(!is_keyword(first)) by {
        assert(first[0] == '#');
        assert(none_word()[0] == 'n');
        assert(inherit_word()[0] == 'i');
        assert(current_color_word()[0] == 'c');
    }
    assert(!is_keyword(second)) by {
        assert(second[0] == '#');
        assert(none_word()[0] == 'n');
        assert(inherit_word()[0] == 'i');
        assert(current_color_word()[0] == 'c');
    }
    let parsed = seq![first, second].map_values(|token: Seq<char>| recognized(token));
    assert(parsed =~= seq![Some(color), Some(color)]);
    assert(parsed.drop_last() =~= seq![Some(color)]);
    assert(parsed.drop_last().drop_last() =~= Seq::<Option<Color>>::empty());
    reveal_with_fuel(distinct, 3);
    assert(distinct(parsed.drop_last()) =~= seq![color]);
    assert(seq![color][0] == color);
    assert(seq![color].contains(color));
    assert(distinct(parsed) =~= seq![color]);
}

/// An SVG text whose color tokens are a hex color and the same in another
/// case of letters uses one color: the color with those three bytes.
pub proof fn lemma_hex_case_in_svg(content: Seq<char>, first: Seq<char>, second: Seq<char>)
    requires
        color_tokens(content) == seq![first, second],
        is_hex_color(first),
        ascii_lowered(first) == ascii_lowered(second),
    ensures
        svg_info_of(content).colors_used == seq![hex_color(first)],
{
    lemma_hex_case_is_one_color(first, second);
}

} // verus!
