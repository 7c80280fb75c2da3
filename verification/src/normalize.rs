//! From rendered HTML to clean plain text.
//!
//! The text of a page is what stands inside its paragraphs, outside links to
//! templates, to the API and to files. What is left of markup is then cut
//! away, asides in parentheses are dropped unless they are purely
//! ideographic, section headers go, and spacing and punctuation are put in
//! order. A strict mode keeps only the lines that read as Chinese prose.

use crate::markup::{read_tokens, unescape, unescaped, Attribute, AttributeView, Token, TokenView};
use crate::pattern::{
    backtracking_replace_all,
    backtracking_replaced,
    regex_count_matches,
    regex_match_count,
    regex_replace_all,
    regex_replaced,
};
use crate::text::{
    begins_with,
    chars_of,
    join,
    joined,
    lemma_replaced_character_is_gone,
    lemma_replaced_takes_no_new_character,
    line_views,
    lines,
    lines_of,
    replace,
    replaced,
    same_bytes,
    starts_with,
    string_of,
    string_views,
    trim,
    trim_chars,
    trimmed,
};
use vstd::prelude::*;
use vstd::string::StringSliceAdditionalSpecFns;

verus! {

/// Why a text could not be normalized.
#[derive(Debug, Clone, Copy, PartialEq, Eq, Structural)]
pub enum NormalizeError {
    /// The HTML is not well formed, or its character data cannot be decoded.
    Markup,
    /// A regular expression was refused or its search gave up.
    Pattern,
}

/// An opening tag up to its closing tag of the same name.
pub const PAIRED_TAGS: &'static str = r"<\s*(\w+)\b.*?>.*?</\s*\1\s*>";

/// An opening tag.
pub const OPEN_TAG: &'static str = r"<\s*(\w+)\b.*?>";

/// A closing tag.
pub const CLOSE_TAG: &'static str = r"</\s*(\w+)\s*>";

/// A tag that closes itself.
pub const SELF_CLOSING_TAG: &'static str = r"<\w+\b.*?/>";

/// An aside in full-width parentheses that holds ideographs only.
pub const HAN_ASIDE: &'static str = r"[（](\p{Han}+)[）]";

/// An aside in full-width parentheses, from where it opens to the first
/// place where one closes.
pub const ASIDE: &'static str = r"[（][^）]*[）]";

/// An aside that was set apart to be kept.
pub const KEPT_ASIDE: &'static str = r"@@start@@(.+)@@end@@";

/// A section header: a line that begins and ends with doubled equals
/// signs, with the line feed that ends it.
pub const SECTION_HEADER: &'static str = r"(?m)^==.+==[^\S\n]*$\n?";

/// A run of spaces.
pub const SPACE_RUN: &'static str = r" +";

/// Three periods or more.
pub const DOT_RUN: &'static str = r"\.{3,}";

/// Three ideographic full stops or more.
pub const FULL_STOP_RUN: &'static str = r"。{3,}";

/// A space before a closing punctuation mark.
pub const SPACE_BEFORE_CLOSER: &'static str = r" ([,，:：\.。\)）\]】»》])";

/// A space after an opening punctuation mark.
pub const SPACE_AFTER_OPENER: &'static str = r"([\[【\(（«《]) ";

/// A line without a single word character.
pub const MARKS_ONLY_LINE: &'static str = r"\n\W+?\n";

/// A punctuation character.
pub const PUNCTUATION: &'static str = r"\p{P}";

/// An ideograph.
pub const HAN: &'static str = r"\p{Han}";

/// The mark that opens an aside set apart to be kept.
pub const KEEP_START: &'static str = "@@start@@";

/// The mark that closes an aside set apart to be kept.
pub const KEEP_END: &'static str = "@@end@@";

/// The ellipsis.
pub const ELLIPSIS: &'static str = "…";

/// The characters of a result that holds a string.
pub open spec fn viewed(r: Result<String, NormalizeError>) -> Result<Seq<char>, NormalizeError> {
    match r {
        Ok(s) => Ok(s@),
        Err(e) => Err(e),
    }
}

/// `text` with every match of `pattern` replaced by `with`.
pub open spec fn substituted(pattern: Seq<char>, text: Seq<char>, with: Seq<char>) -> Result<
    Seq<char>,
    NormalizeError,
> {
    match regex_replaced(pattern, text, with) {
        Some(s) => Ok(s),
        None => Err(NormalizeError::Pattern),
    }
}

/// What `substituted` makes of a text that was obtained without error.
pub open spec fn and_substituted(
    r: Result<Seq<char>, NormalizeError>,
    pattern: Seq<char>,
    with: Seq<char>,
) -> Result<Seq<char>, NormalizeError> {
    match r {
        Ok(text) => substituted(pattern, text, with),
        Err(e) => Err(e),
    }
}

/// What `replaced` makes of a text that was obtained without error.
pub open spec fn and_replaced(
    r: Result<Seq<char>, NormalizeError>,
    pattern: Seq<char>,
    with: Seq<char>,
) -> Result<Seq<char>, NormalizeError> {
    match r {
        Ok(text) => Ok(replaced(text, pattern, with)),
        Err(e) => Err(e),
    }
}

/// Replaces every match of the regular expression `pattern` in `text`. The
/// result holds no character that neither `text` nor `with` holds.
pub fn substitute(pattern: &str, text: &str, with: &str) -> (out: Result<String, NormalizeError>)
    ensures
        viewed(out) == substituted(pattern@, text@, with@),
        out matches Ok(s) ==> forall|c: char| #[trigger]
            s@.contains(c) ==> text@.contains(c) || with@.contains(c),
{
    match regex_replace_all(pattern, text, with) {
        Some(s) => Ok(s),
        None => Err(NormalizeError::Pattern),
    }
}

/// `text` without paired tags and what they enclose, then without the
/// opening and the closing tags that are left.
pub open spec fn tags_removed(text: Seq<char>) -> Result<Seq<char>, NormalizeError> {
    match backtracking_replaced(PAIRED_TAGS@, text, ""@) {
        None => Err(NormalizeError::Pattern),
        Some(unpaired) => and_substituted(
            substituted(OPEN_TAG@, unpaired, ""@),
            CLOSE_TAG@,
            ""@,
        ),
    }
}

/// Cuts out paired tags with what they enclose, then orphaned opening and
/// closing tags.
pub fn remove_tags(input: &str) -> (out: Result<String, NormalizeError>)
    ensures
        viewed(out) == tags_removed(input@),
{
    let unpaired = match backtracking_replace_all(PAIRED_TAGS, input, "") {
        Some(s) => s,
        None => { return Err(NormalizeError::Pattern); },
    };
    let unopened = substitute(OPEN_TAG, unpaired.as_str(), "")?;
    substitute(CLOSE_TAG, unopened.as_str(), "")
}

/// `text` without the tags that close themselves.
pub open spec fn self_closing_tags_removed(text: Seq<char>) -> Result<Seq<char>, NormalizeError> {
    substituted(SELF_CLOSING_TAG@, text, ""@)
}

/// Cuts out the tags that close themselves.
pub fn remove_self_closing_tags(input: &str) -> (out: Result<String, NormalizeError>)
    ensures
        viewed(out) == self_closing_tags_removed(input@),
{
    substitute(SELF_CLOSING_TAG, input, "")
}

/// `text` without its asides in full-width parentheses, except those that
/// hold ideographs only.
pub open spec fn asides_removed(text: Seq<char>) -> Result<Seq<char>, NormalizeError> {
    let r = substituted(HAN_ASIDE@, text, "@@start@@$1@@end@@"@);
    let r = and_substituted(r, ASIDE@, ""@);
    let r = and_substituted(r, KEPT_ASIDE@, "（$1）"@);
    let r = and_replaced(r, KEEP_START@, "（"@);
    and_replaced(r, KEEP_END@, "）"@)
}

/// Drops asides in full-width parentheses. An aside of ideographs only is
/// set apart first and put back afterwards.
pub fn remove_asides(text: &str) -> (out: Result<String, NormalizeError>)
    ensures
        viewed(out) == asides_removed(text@),
{
    let t = substitute(HAN_ASIDE, text, "@@start@@$1@@end@@")?;
    let t = substitute(ASIDE, t.as_str(), "")?;
    let t = substitute(KEPT_ASIDE, t.as_str(), "（$1）")?;
    let t = replace(t.as_str(), KEEP_START, "（");
    Ok(replace(t.as_str(), KEEP_END, "）"))
}

/// `text` without its section headers.
pub open spec fn section_headers_removed(text: Seq<char>) -> Result<Seq<char>, NormalizeError> {
    substituted(SECTION_HEADER@, text, ""@)
}

/// Cuts out section headers.
pub fn remove_section_headers(text: &str) -> (out: Result<String, NormalizeError>)
    ensures
        viewed(out) == section_headers_removed(text@),
{
    substitute(SECTION_HEADER, text, "")
}

/// `text` with its spacing and punctuation put in order: doubled angle
/// brackets become quotation marks, tabs become spaces, runs of spaces
/// become one, runs of three periods or full stops become an ellipsis, the
/// space before a closing mark and after an opening mark goes, a line of
/// marks only goes, and doubled commas and a comma before a period are
/// reduced.
pub open spec fn cleaned(text: Seq<char>) -> Result<Seq<char>, NormalizeError> {
    let quoted = replaced(replaced(text, "<<"@, "«"@), ">>"@, "»"@);
    let untabbed = replaced(quoted, "\t"@, " "@);
    let r = substituted(SPACE_RUN@, untabbed, " "@);
    let r = and_substituted(r, DOT_RUN@, ELLIPSIS@);
    let r = and_substituted(r, FULL_STOP_RUN@, ELLIPSIS@);
    let r = and_substituted(r, SPACE_BEFORE_CLOSER@, "$1"@);
    let r = and_substituted(r, SPACE_AFTER_OPENER@, "$1"@);
    let r = and_substituted(r, MARKS_ONLY_LINE@, "\n"@);
    let r = and_replaced(r, ",,"@, ","@);
    let r = and_replaced(r, "，，"@, "，"@);
    let r = and_replaced(r, ",."@, "."@);
    and_replaced(r, "，。"@, "。"@)
}

/// None of the texts that cleaning puts in holds a tab.
proof fn lemma_no_tab_is_put_in()
    ensures
        "\t"@ == seq!['\t'],
        !" "@.contains('\t'),
        !ELLIPSIS@.contains('\t'),
        !"$1"@.contains('\t'),
        !"\n"@.contains('\t'),
        !","@.contains('\t'),
        !"，"@.contains('\t'),
        !"."@.contains('\t'),
        !"。"@.contains('\t'),
{
    reveal_strlit("\t");
    reveal_strlit(" ");
    reveal_strlit("…");
    reveal_strlit("$1");
    reveal_strlit("\n");
    reveal_strlit(",");
    reveal_strlit("，");
    reveal_strlit(".");
    reveal_strlit("。");
    assert("\t"@ =~= seq!['\t']);
}

/// Puts the spacing and punctuation of `text` in order. No tab is left in
/// the result.
pub fn clean_text(text: &str) -> (out: Result<String, NormalizeError>)
    ensures
        viewed(out) == cleaned(text@),
        out matches Ok(s) ==> !s@.contains('\t'),
{
    let t = replace(text, "<<", "«");
    let t = replace(t.as_str(), ">>", "»");
    let ghost tabbed = t@;
    let t = replace(t.as_str(), "\t", " ");
    proof {
        lemma_no_tab_is_put_in();
        lemma_replaced_character_is_gone(tabbed, '\t', " "@);
    }
    let t = substitute(SPACE_RUN, t.as_str(), " ")?;
    let t = substitute(DOT_RUN, t.as_str(), ELLIPSIS)?;
    let t = substitute(FULL_STOP_RUN, t.as_str(), ELLIPSIS)?;
    let t = substitute(SPACE_BEFORE_CLOSER, t.as_str(), "$1")?;
    let t = substitute(SPACE_AFTER_OPENER, t.as_str(), "$1")?;
    let t = substitute(MARKS_ONLY_LINE, t.as_str(), "\n")?;
    assert(!t@.contains('\t'));
    let ghost t0 = t@;
    let t = replace(t.as_str(), ",,", ",");
    let ghost t1 = t@;
    let t = replace(t.as_str(), "，，", "，");
    let ghost t2 = t@;
    let t = replace(t.as_str(), ",.", ".");
    let ghost t3 = t@;
    let t = replace(t.as_str(), "，。", "。");
    proof {
        if t@.contains('\t') {
            lemma_replaced_takes_no_new_character(t3, "，。"@, "。"@, '\t');
            lemma_replaced_takes_no_new_character(t2, ",."@, "."@, '\t');
            lemma_replaced_takes_no_new_character(t1, "，，"@, "，"@, '\t');
            lemma_replaced_takes_no_new_character(t0, ",,"@, ","@, '\t');
        }
    }
    Ok(t)
}

/// Whether a line of `length` characters, `marks` of them punctuation and
/// `ideographs` of them ideographs, reads as Chinese prose: ten characters
/// or more, a punctuation character among them, and more than seven tenths
/// of them ideographs.
pub open spec fn prose_by_counts(length: nat, marks: nat, ideographs: nat) -> bool {
    length >= 10 && marks > 0 && ideographs * 10 > length * 7
}

/// Whether a trimmed line reads as Chinese prose. A line under ten
/// characters is not searched; a line without punctuation is not searched
/// for ideographs.
pub open spec fn is_prose(line: Seq<char>) -> Result<bool, NormalizeError> {
    if line.len() < 10 {
        Ok(false)
    } else {
        match regex_match_count(PUNCTUATION@, line) {
            None => Err(NormalizeError::Pattern),
            Some(marks) => if marks == 0 {
                Ok(false)
            } else {
                match regex_match_count(HAN@, line) {
                    None => Err(NormalizeError::Pattern),
                    Some(ideographs) => Ok(prose_by_counts(line.len(), marks, ideographs)),
                }
            },
        }
    }
}

/// Tests by its counts whether a line reads as Chinese prose.
pub fn is_prose_line(length: usize, marks: usize, ideographs: usize) -> (b: bool)
    ensures
        b == prose_by_counts(length as nat, marks as nat, ideographs as nat),
{
    length >= 10 && marks > 0 && ideographs as u128 * 10 > length as u128 * 7
}

/// `kept`, followed by those of `lines` that read as prose once trimmed, in
/// their order.
pub open spec fn prose_added(kept: Seq<Seq<char>>, lines: Seq<Seq<char>>) -> Result<
    Seq<Seq<char>>,
    NormalizeError,
>
    decreases lines.len(),
{
    if lines.len() == 0 {
        Ok(kept)
    } else {
        let line = trimmed(lines[0]);
        match is_prose(line) {
            Err(e) => Err(e),
            Ok(true) => prose_added(kept.push(line), lines.skip(1)),
            Ok(false) => prose_added(kept, lines.skip(1)),
        }
    }
}

/// The lines of `text` that read as prose, trimmed and joined by line feeds.
pub open spec fn prose_lines(text: Seq<char>) -> Result<Seq<char>, NormalizeError> {
    match prose_added(Seq::empty(), lines_of(text)) {
        Ok(kept) => Ok(joined(kept, "\n"@)),
        Err(e) => Err(e),
    }
}

/// Tests whether a trimmed line reads as Chinese prose.
pub fn reads_as_prose(line: &Vec<char>) -> (out: Result<bool, NormalizeError>)
    ensures
        out == is_prose(line@),
{
    if line.len() < 10 {
        return Ok(false);
    }
    let text = string_of(line);
    let marks = match regex_count_matches(PUNCTUATION, text.as_str()) {
        Some(n) => n,
        None => { return Err(NormalizeError::Pattern); },
    };
    if marks == 0 {
        return Ok(false);
    }
    let ideographs = match regex_count_matches(HAN, text.as_str()) {
        Some(n) => n,
        None => { return Err(NormalizeError::Pattern); },
    };
    Ok(is_prose_line(line.len(), marks, ideographs))
}

/// Keeps the lines of `text` that read as Chinese prose.
pub fn filter_lines(text: &str) -> (out: Result<String, NormalizeError>)
    ensures
        viewed(out) == prose_lines(text@),
{
    let chars = chars_of(text);
    let all = lines(&chars);
    let mut kept: Vec<String> = Vec::new();
    let mut i: usize = 0;
    assert(line_views(all@).skip(0) =~= line_views(all@));
    assert(string_views(kept@) =~= Seq::<Seq<char>>::empty());
    while i < all.len()
        invariant
            i <= all.len(),
            line_views(all@) == lines_of(text@),
            prose_added(string_views(kept@), line_views(all@).skip(i as int)) == prose_added(
                Seq::empty(),
                lines_of(text@),
            ),
        decreases all.len() - i,
    {
        let ghost rest = line_views(all@).skip(i as int);
        let line = trim_chars(&all[i]);
        assert(rest[0] == all@[i as int]@);
        assert(rest.skip(1) =~= line_views(all@).skip(i + 1));
        if reads_as_prose(&line)? {
            let s = string_of(&line);
            assert(string_views(kept@.push(s)) =~= string_views(kept@).push(line@));
            kept.push(s);
        }
        i += 1;
    }
    Ok(join(&kept, "\n"))
}

/// Whether a tag of this name may carry text inside a paragraph.
pub open spec fn is_inline(name: Seq<u8>) -> bool {
    name == "b".spec_bytes() || name == "i".spec_bytes() || name == "a".spec_bytes()
}

/// Whether a link target leads to a template, to the API or to a file.
pub open spec fn is_hidden_target(target: Seq<u8>) -> bool {
    ||| begins_with(target, "/index.php?title=Template:".spec_bytes())
    ||| begins_with(target, "/index.php?title=API".spec_bytes())
    ||| begins_with(target, "/index.php/File:".spec_bytes())
}

/// Whether one of the attributes is an `href` with a hidden target.
pub open spec fn hides_link(attributes: Seq<AttributeView>) -> bool {
    exists|i: int|
        0 <= i < attributes.len() && (#[trigger] attributes[i]).key == "href".spec_bytes()
            && is_hidden_target(attributes[i].value)
}

/// Where a walk through the tokens of a page stands.
pub struct Walk {
    /// Whether the walk is inside a paragraph.
    pub in_paragraph: bool,
    /// Whether text may be taken where the walk stands.
    pub allowed: bool,
    /// The text taken so far.
    pub text: Seq<char>,
}

/// The walk before the first token.
pub open spec fn walk_start() -> Walk {
    Walk { in_paragraph: false, allowed: true, text: Seq::empty() }
}

/// The walk after an opening tag. A paragraph begins with `p`. Inside a
/// paragraph a tag that may carry text allows text again, unless it is a
/// link with a hidden target. A tag of any other name leaves what is
/// allowed as it is.
pub open spec fn walk_opened(w: Walk, name: Seq<u8>, attributes: Seq<AttributeView>) -> Walk {
    let in_paragraph = w.in_paragraph || name == "p".spec_bytes();
    let allowed = if in_paragraph && is_inline(name) {
        !(name == "a".spec_bytes() && hides_link(attributes))
    } else {
        w.allowed
    };
    Walk { in_paragraph, allowed, text: w.text }
}

/// The walk after a closing tag. Inside a paragraph the end of a tag that
/// may carry text allows text again. The end of a paragraph closes the text
/// taken so far with one line feed, unless there is none or it ends in one.
pub open spec fn walk_closed(w: Walk, name: Seq<u8>) -> Walk {
    let allowed = w.allowed || (w.in_paragraph && is_inline(name));
    if name == "p".spec_bytes() {
        let text = if w.text.len() > 0 && w.text.last() != '\n' {
            w.text.push('\n')
        } else {
            w.text
        };
        Walk { in_paragraph: false, allowed, text }
    } else {
        Walk { in_paragraph: w.in_paragraph, allowed, text: w.text }
    }
}

/// The walk after character data that reads `text`: it is taken inside a
/// paragraph where text is allowed, and passed over elsewhere.
pub open spec fn walk_taken(w: Walk, text: Seq<char>) -> Walk {
    if w.in_paragraph && w.allowed {
        Walk { in_paragraph: w.in_paragraph, allowed: w.allowed, text: w.text + text }
    } else {
        w
    }
}

/// The walk after one more token, or `None` where the token is malformed
/// or its text cannot be decoded.
pub open spec fn walk_step(w: Walk, token: TokenView) -> Option<Walk> {
    match token {
        TokenView::Open(name, attributes) => Some(walk_opened(w, name, attributes)),
        TokenView::Close(name) => Some(walk_closed(w, name)),
        TokenView::Text(raw) => match unescaped(raw) {
            None => None,
            Some(text) => Some(walk_taken(w, text)),
        },
        TokenView::Malformed => None,
        TokenView::Empty(_) => Some(w),
        TokenView::Other => Some(w),
    }
}

/// The text that a walk from `w` through `tokens` has taken at the end, or
/// `None` where the walk fails on the way.
pub open spec fn walked(w: Walk, tokens: Seq<TokenView>) -> Option<Seq<char>>
    decreases tokens.len(),
{
    if tokens.len() == 0 {
        Some(w.text)
    } else {
        match walk_step(w, tokens[0]) {
            None => None,
            Some(next) => walked(next, tokens.skip(1)),
        }
    }
}

/// The text inside the paragraphs of a page, outside hidden links, each
/// paragraph ending in one line feed.
pub open spec fn paragraphs(tokens: Seq<TokenView>) -> Result<Seq<char>, NormalizeError> {
    match walked(walk_start(), tokens) {
        Some(text) => Ok(text),
        None => Err(NormalizeError::Markup),
    }
}

/// Whether a token opens a paragraph.
pub open spec fn opens_paragraph(token: TokenView) -> bool {
    token matches TokenView::Open(name, _) && name == "p".spec_bytes()
}

/// Outside a paragraph no text is taken: a walk that is outside a paragraph,
/// has taken nothing yet and meets no opening of a paragraph ends with
/// nothing taken.
pub proof fn law_text_is_taken_inside_paragraphs_only(w: Walk, tokens: Seq<TokenView>)
    requires
        !w.in_paragraph,
        w.text.len() == 0,
        forall|i: int| 0 <= i < tokens.len() ==> !opens_paragraph(#[trigger] tokens[i]),
    ensures
        walked(w, tokens) matches Some(text) ==> text.len() == 0,
    decreases tokens.len(),
{
    if tokens.len() > 0 {
        assert(!opens_paragraph(tokens[0]));
        match walk_step(w, tokens[0]) {
            None => {},
            Some(next) => {
                assert(!next.in_paragraph);
                assert(next.text.len() == 0);
                assert forall|i: int| 0 <= i < tokens.skip(1).len() implies !opens_paragraph(
                    #[trigger] tokens.skip(1)[i],
                ) by {
                    assert(tokens.skip(1)[i] == tokens[i + 1]);
                }
                law_text_is_taken_inside_paragraphs_only(next, tokens.skip(1));
            },
        }
    }
}

/// Tests whether one of the attributes is an `href` with a hidden target.
pub fn has_hidden_link(attributes: &Vec<Attribute>) -> (b: bool)
    ensures
        b == hides_link(attributes@.map_values(|a: Attribute| a@)),
{
    let ghost views = attributes@.map_values(|a: Attribute| a@);
    let mut i: usize = 0;
    while i < attributes.len()
        invariant
            i <= attributes.len(),
            views == attributes@.map_values(|a: Attribute| a@),
            forall|j: int|
                0 <= j < i ==> !((#[trigger] views[j]).key == "href".spec_bytes()
                    && is_hidden_target(views[j].value)),
        decreases attributes.len() - i,
    {
        let a = &attributes[i];
        assert(views[i as int] == a@);
        if same_bytes(a.key.as_slice(), "href".as_bytes()) {
            let value = a.value.as_slice();
            if starts_with(value, "/index.php?title=Template:".as_bytes()) || starts_with(
                value,
                "/index.php?title=API".as_bytes(),
            ) || starts_with(value, "/index.php/File:".as_bytes()) {
                return true;
            }
        }
        i += 1;
    }
    false
}

/// A walk through the tokens of a page.
#[derive(Debug)]
pub struct ParagraphWalk {
    pub in_paragraph: bool,
    pub allowed: bool,
    pub text: Vec<char>,
}

impl View for ParagraphWalk {
    type V = Walk;

    open spec fn view(&self) -> Walk {
        Walk { in_paragraph: self.in_paragraph, allowed: self.allowed, text: self.text@ }
    }
}

impl ParagraphWalk {
    /// A walk before the first token.
    pub fn new() -> (walk: ParagraphWalk)
        ensures
            walk@ == walk_start(),
    {
        ParagraphWalk { in_paragraph: false, allowed: true, text: Vec::new() }
    }

    /// Passes an opening tag.
    pub fn open(&mut self, name: &[u8], attributes: &Vec<Attribute>)
        ensures
            final(self)@ == walk_opened(
                old(self)@,
                name@,
                attributes@.map_values(|a: Attribute| a@),
            ),
    {
        if same_bytes(name, "p".as_bytes()) {
            self.in_paragraph = true;
        }
        let is_link = same_bytes(name, "a".as_bytes());
        if self.in_paragraph && (is_link || same_bytes(name, "b".as_bytes()) || same_bytes(
            name,
            "i".as_bytes(),
        )) {
            self.allowed = !(is_link && has_hidden_link(attributes));
        }
    }

    /// Passes a closing tag.
    pub fn close(&mut self, name: &[u8])
        ensures
            final(self)@ == walk_closed(old(self)@, name@),
    {
        if self.in_paragraph && (same_bytes(name, "a".as_bytes()) || same_bytes(
            name,
            "b".as_bytes(),
        ) || same_bytes(name, "i".as_bytes())) {
            self.allowed = true;
        }
        if same_bytes(name, "p".as_bytes()) {
            if self.text.len() > 0 && self.text[self.text.len() - 1] != '\n' {
                self.text.push('\n');
            }
            self.in_paragraph = false;
        }
    }

    /// Passes character data that reads `text`.
    pub fn take(&mut self, text: &str)
        ensures
            final(self)@ == walk_taken(old(self)@, text@),
    {
        if self.in_paragraph && self.allowed {
            let chars = chars_of(text);
            let mut k: usize = 0;
            while k < chars.len()
                invariant
                    k <= chars.len(),
                    self.in_paragraph == old(self).in_paragraph,
                    self.allowed == old(self).allowed,
                    self.text@ == old(self).text@ + chars@.take(k as int),
                decreases chars.len() - k,
            {
                self.text.push(chars[k]);
                k += 1;
            }
            assert(chars@.take(k as int) =~= chars@);
        }
    }

    /// The text taken so far.
    pub fn into_text(self) -> (text: String)
        ensures
            text@ == self@.text,
    {
        string_of(&self.text)
    }
}

/// Collects the text inside the paragraphs of a page.
pub fn paragraph_text(tokens: &Vec<Token>) -> (out: Result<String, NormalizeError>)
    ensures
        viewed(out) == paragraphs(crate::markup::token_views(tokens@)),
{
    let ghost views = crate::markup::token_views(tokens@);
    let mut walk = ParagraphWalk::new();
    let mut i: usize = 0;
    assert(views.skip(0) =~= views);
    while i < tokens.len()
        invariant
            i <= tokens.len(),
            views == crate::markup::token_views(tokens@),
            walked(walk@, views.skip(i as int)) == walked(walk_start(), views),
        decreases tokens.len() - i,
    {
        assert(views.skip(i as int)[0] == tokens@[i as int]@);
        assert(views.skip(i as int).skip(1) =~= views.skip(i + 1));
        match &tokens[i] {
            Token::Open(name, attributes) => walk.open(name.as_slice(), attributes),
            Token::Close(name) => walk.close(name.as_slice()),
            Token::Text(raw) => match unescape(raw.as_slice()) {
                Some(text) => walk.take(text.as_str()),
                None => { return Err(NormalizeError::Markup); },
            },
            Token::Malformed => { return Err(NormalizeError::Markup); },
            Token::Empty(_) => {},
            Token::Other => {},
        }
        i += 1;
    }
    Ok(walk.into_text())
}

/// The clean text of a rendered page: the text of its paragraphs, without
/// what is left of markup, without asides and section headers, with spacing
/// and punctuation in order, reduced to its prose lines where `filter` asks
/// for it, and trimmed.
pub open spec fn normalized(html: Seq<char>, filter: bool) -> Result<Seq<char>, NormalizeError> {
    match paragraphs(crate::markup::markup_tokens(html, true)) {
        Err(e) => Err(e),
        Ok(text) => match tags_removed(text) {
            Err(e) => Err(e),
            Ok(text) => match self_closing_tags_removed(text) {
                Err(e) => Err(e),
                Ok(text) => match asides_removed(text) {
                    Err(e) => Err(e),
                    Ok(text) => match section_headers_removed(text) {
                        Err(e) => Err(e),
                        Ok(text) => match cleaned(text) {
                            Err(e) => Err(e),
                            Ok(text) => if filter {
                                match prose_lines(text) {
                                    Err(e) => Err(e),
                                    Ok(text) => Ok(trimmed(text)),
                                }
                            } else {
                                Ok(trimmed(text))
                            },
                        },
                    },
                },
            },
        },
    }
}

/// Turns rendered HTML into clean plain text. An empty result means that
/// the page holds nothing of use.
pub fn html_to_text(html: &str, filter: bool) -> (out: Result<String, NormalizeError>)
    ensures
        viewed(out) == normalized(html@, filter),
{
    let tokens = read_tokens(html, true);
    let text = paragraph_text(&tokens)?;
    let text = remove_tags(text.as_str())?;
    let text = remove_self_closing_tags(text.as_str())?;
    let text = remove_asides(text.as_str())?;
    let text = remove_section_headers(text.as_str())?;
    let text = clean_text(text.as_str())?;
    if filter {
        let text = filter_lines(text.as_str())?;
        Ok(trim(text.as_str()))
    } else {
        Ok(trim(text.as_str()))
    }
}

} // verus!
