//! Regular expressions, matched by the `regex` crate.

use vstd::prelude::*;

use crate::text::blen;

verus! {

#[verifier::external_type_specification]
#[verifier::external_body]
pub struct ExRegex(regex::Regex);

/// Whether `regex::Regex::new` accepts the pattern.
pub uninterp spec fn regex_compiles(pattern: Seq<char>) -> bool;

/// The text of the error `regex::Regex::new` gives for a pattern it refuses.
pub uninterp spec fn regex_error(pattern: Seq<char>) -> Seq<char>;

/// What `regex::Regex::is_match` answers.
pub uninterp spec fn regex_matches(pattern: Seq<char>, text: Seq<char>) -> bool;

/// What `regex::Regex::find` answers: the leftmost-first match.
pub uninterp spec fn regex_first(pattern: Seq<char>, text: Seq<char>) -> Option<CaptureView>;

/// What `regex::Regex::captures_iter` yields: for each successive
/// non-overlapping match, every capture group (group 0 is the whole match,
/// and is always there).
pub uninterp spec fn regex_captures(pattern: Seq<char>, text: Seq<char>) -> Seq<Seq<Option<CaptureView>>>;

/// A matched part of a text: its byte range and its text.
#[derive(Debug)]
pub struct Capture {
    pub start: usize,
    pub end: usize,
    pub text: String,
}

pub struct CaptureView {
    pub start: int,
    pub end: int,
    pub text: Seq<char>,
}

impl View for Capture {
    type V = CaptureView;

    open spec fn view(&self) -> CaptureView {
        CaptureView { start: self.start as int, end: self.end as int, text: self.text@ }
    }
}

pub open spec fn opt_capture_view(c: Option<Capture>) -> Option<CaptureView> {
    match c {
        Some(c) => Some(c@),
        None => None,
    }
}

/// A match of `text`, as `regex` documents one: its byte offsets fall on
/// character boundaries, the start is not after the end, and its text is
/// the text between them.
pub open spec fn is_match_of(c: CaptureView, text: Seq<char>) -> bool {
    exists|i: int, j: int|
        0 <= i <= j <= text.len() && #[trigger] blen(text.take(i)) == c.start && #[trigger] blen(text.take(j)) == c.end
            && c.text == text.subrange(i, j)
}

/// Every group that took part in a match is a match of `text`.
pub open spec fn groups_of(g: Seq<Option<CaptureView>>, text: Seq<char>) -> bool {
    forall|k: int| 0 <= k < g.len() ==> (#[trigger] g[k] matches Some(c) ==> is_match_of(c, text))
}

/// The views of the groups of one match.
pub open spec fn groups_view(g: Seq<Option<Capture>>) -> Seq<Option<CaptureView>> {
    g.map_values(|c: Option<Capture>| opt_capture_view(c))
}

/// A compiled regular expression, with the pattern it was compiled from.
pub struct Pattern {
    re: regex::Regex,
    source: Ghost<Seq<char>>,
}

impl View for Pattern {
    type V = Seq<char>;

    closed spec fn view(&self) -> Seq<char> {
        self.source@
    }
}

/// Calls `regex::Regex::new`: it succeeds exactly on the patterns that
/// `regex_compiles` holds of, and otherwise gives the error's text.
#[verifier::external_body]
fn new_regex(pattern: &str) -> (r: Result<regex::Regex, String>)
    ensures
        r is Ok <==> regex_compiles(pattern@),
        r matches Err(e) ==> e@ == regex_error(pattern@),
{
    regex::Regex::new(pattern).map_err(|e| e.to_string())
}

/// Compiles `pattern`.
pub fn compile(pattern: &str) -> (r: Result<Pattern, String>)
    ensures
        r is Ok <==> regex_compiles(pattern@),
        r matches Ok(p) ==> p@ == pattern@,
        r matches Err(e) ==> e@ == regex_error(pattern@),
{
    match new_regex(pattern) {
        Ok(re) => Ok(Pattern { re, source: Ghost(pattern@) }),
        Err(e) => Err(e),
    }
}

/// Calls `regex::Regex::is_match`.
#[verifier::external_body]
pub(crate) fn is_match(p: &Pattern, text: &str) -> (r: bool)
    ensures
        r == regex_matches(p@, text@),
{
    p.re.is_match(text)
}

/// Calls `regex::Regex::find`, giving the match's byte range and text; a
/// match lies on character boundaries, as `regex` documents.
#[verifier::external_body]
pub(crate) fn find(p: &Pattern, text: &str) -> (r: Option<Capture>)
    ensures
        opt_capture_view(r) == regex_first(p@, text@),
        r matches Some(c) ==> is_match_of(c@, text@),
{
    p.re.find(text).map(|m| Capture { start: m.start(), end: m.end(), text: m.as_str().to_string() })
}

/// Calls `regex::Regex::captures_iter`, giving every group of every match;
/// as `regex` documents, group 0 is always there, and each group lies on
/// character boundaries of the text.
#[verifier::external_body]
pub(crate) fn captures(p: &Pattern, text: &str) -> (r: Vec<Vec<Option<Capture>>>)
    ensures
        r@.len() == regex_captures(p@, text@).len(),
        forall|i: int|
            0 <= i < r@.len() ==> groups_view(#[trigger] r@[i]@) == regex_captures(p@, text@)[i],
        forall|i: int|
            #![trigger regex_captures(p@, text@)[i]]
            0 <= i < r@.len() ==> {
                let g = regex_captures(p@, text@)[i];
                &&& g.len() >= 1
                &&& g[0] is Some
                &&& groups_of(g, text@)
            },
{
    p.re.captures_iter(text).map(|c| {
        c.iter().map(|m| m.map(|m| Capture { start: m.start(), end: m.end(), text: m.as_str().to_string() })).collect()
    }).collect()
}

/// The characters that have a meaning of their own in a pattern.
pub open spec fn is_meta(c: char) -> bool {
    c == '\\' || c == '.' || c == '+' || c == '*' || c == '?' || c == '(' || c == ')' || c == '|' || c == '['
        || c == ']' || c == '{' || c == '}' || c == '^' || c == '$' || c == '#' || c == '&' || c == '-' || c == '~'
}

/// A text with a backslash before each character that has a meaning of its
/// own in a pattern, so that the pattern matches the text literally.
pub open spec fn escaped(s: Seq<char>) -> Seq<char>
    decreases s.len(),
{
    if s.len() == 0 {
        seq![]
    } else {
        escaped(s.drop_last()) + if is_meta(s.last()) {
            seq!['\\', s.last()]
        } else {
            seq![s.last()]
        }
    }
}

/// Calls `regex::escape`, which puts a backslash before each of the
/// characters listed in `is_meta` (those `regex_syntax::is_meta_character`
/// names) and keeps the others.
#[verifier::external_body]
pub(crate) fn escape(s: &str) -> (r: String)
    ensures
        r@ == escaped(s@),
{
    regex::escape(s)
}

#[verifier::external_type_specification]
#[verifier::external_body]
pub struct ExRegexSet(regex::RegexSet);

/// Whether `regex::RegexSet::new` accepts the patterns.
pub uninterp spec fn regex_set_compiles(patterns: Seq<Seq<char>>) -> bool;

/// The text of the error `regex::RegexSet::new` gives for patterns it
/// refuses.
pub uninterp spec fn regex_set_error(patterns: Seq<Seq<char>>) -> Seq<char>;

/// Some pattern of the set matches `text`.
pub open spec fn any_matches(patterns: Seq<Seq<char>>, text: Seq<char>) -> bool {
    exists|i: int| 0 <= i < patterns.len() && #[trigger] regex_matches(patterns[i], text)
}

/// A compiled set of regular expressions, with the patterns it was
/// compiled from.
pub struct PatternSet {
    set: regex::RegexSet,
    sources: Ghost<Seq<Seq<char>>>,
}

impl View for PatternSet {
    type V = Seq<Seq<char>>;

    closed spec fn view(&self) -> Seq<Seq<char>> {
        self.sources@
    }
}

/// Calls `regex::RegexSet::new`: it succeeds exactly on the pattern lists
/// that `regex_set_compiles` holds of, and otherwise gives the error's
/// text.
#[verifier::external_body]
fn new_regex_set(patterns: &Vec<String>) -> (r: Result<regex::RegexSet, String>)
    ensures
        r is Ok <==> regex_set_compiles(crate::lints::strings_view(patterns@)),
        r matches Err(e) ==> e@ == regex_set_error(crate::lints::strings_view(patterns@)),
{
    regex::RegexSet::new(patterns).map_err(|e| e.to_string())
}

/// Compiles a set of patterns.
pub fn compile_set(patterns: &Vec<String>) -> (r: Result<PatternSet, String>)
    ensures
        r is Ok <==> regex_set_compiles(crate::lints::strings_view(patterns@)),
        r matches Ok(p) ==> p@ == crate::lints::strings_view(patterns@),
        r matches Err(e) ==> e@ == regex_set_error(crate::lints::strings_view(patterns@)),
{
    match new_regex_set(patterns) {
        Ok(set) => Ok(PatternSet { set, sources: Ghost(crate::lints::strings_view(patterns@)) }),
        Err(e) => Err(e),
    }
}

/// Calls `regex::RegexSet::is_match`, which, as `regex` documents it, is
/// true exactly when one of the set's patterns matches the text.
#[verifier::external_body]
pub(crate) fn set_is_match(p: &PatternSet, text: &str) -> (r: bool)
    ensures
        r == any_matches(p@, text@),
{
    p.set.is_match(text)
}

/// What `regex::Regex::replace_all` gives: `text` with every match of the
/// pattern replaced by `replacement`.
pub uninterp spec fn regex_replaced(pattern: Seq<char>, text: Seq<char>, replacement: Seq<char>) -> Seq<char>;

/// Calls `regex::Regex::replace_all`, replacing every match in `text`.
#[verifier::external_body]
pub(crate) fn replace_all(p: &Pattern, text: &str, replacement: &str) -> (r: String)
    ensures
        r@ == regex_replaced(p@, text@, replacement@),
{
    p.re.replace_all(text, replacement).to_string()
}

} // verus!
