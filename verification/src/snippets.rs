//! Diagnostics: a message with a title, source snippets carrying annotated
//! byte ranges, and footers. Rendering them is left to the caller.

use vstd::prelude::*;

use crate::text::{blen, ceil_boundary, ceil_char_boundary, chars_of};

verus! {

/// The severity of a message or of an annotation.
#[derive(Clone, Copy, Debug, PartialEq, Eq, Structural)]
pub enum Level {
    Error,
    Warning,
    Info,
    Note,
    Help,
}

/// A labelled byte range of a snippet's source.
#[derive(Debug)]
pub struct Annotation {
    pub level: Level,
    pub start: usize,
    pub end: usize,
    pub label: Option<String>,
}

#[verifier::ext_equal]
pub struct AnnotationView {
    pub level: Level,
    pub start: int,
    pub end: int,
    pub label: Option<Seq<char>>,
}

pub open spec fn opt_view(o: Option<String>) -> Option<Seq<char>> {
    match o {
        Some(s) => Some(s@),
        None => None,
    }
}

impl View for Annotation {
    type V = AnnotationView;

    open spec fn view(&self) -> AnnotationView {
        AnnotationView {
            level: self.level,
            start: self.start as int,
            end: self.end as int,
            label: opt_view(self.label),
        }
    }
}

/// A piece of source text, where it starts, and its annotations.
#[derive(Debug)]
pub struct Snippet {
    pub source: String,
    pub line_start: usize,
    pub origin: Option<String>,
    pub fold: bool,
    pub annotations: Vec<Annotation>,
}

#[verifier::ext_equal]
pub struct SnippetView {
    pub source: Seq<char>,
    pub line_start: int,
    pub origin: Option<Seq<char>>,
    pub fold: bool,
    pub annotations: Seq<AnnotationView>,
}

impl View for Snippet {
    type V = SnippetView;

    open spec fn view(&self) -> SnippetView {
        SnippetView {
            source: self.source@,
            line_start: self.line_start as int,
            origin: opt_view(self.origin),
            fold: self.fold,
            annotations: self.annotations@.map_values(|a: Annotation| a@),
        }
    }
}

/// A line of text shown below a message.
#[derive(Debug)]
pub struct Footer {
    pub level: Level,
    pub title: String,
}

#[verifier::ext_equal]
pub struct FooterView {
    pub level: Level,
    pub title: Seq<char>,
}

impl View for Footer {
    type V = FooterView;

    open spec fn view(&self) -> FooterView {
        FooterView { level: self.level, title: self.title@ }
    }
}

/// A diagnostic: its level, the slug of the lint that raised it, a title,
/// snippets and footers.
#[derive(Debug)]
pub struct Message {
    pub level: Level,
    pub id: Option<String>,
    pub title: String,
    pub snippets: Vec<Snippet>,
    pub footers: Vec<Footer>,
}

#[verifier::ext_equal]
pub struct MessageView {
    pub level: Level,
    pub id: Option<Seq<char>>,
    pub title: Seq<char>,
    pub snippets: Seq<SnippetView>,
    pub footers: Seq<FooterView>,
}

impl View for Message {
    type V = MessageView;

    open spec fn view(&self) -> MessageView {
        MessageView {
            level: self.level,
            id: opt_view(self.id),
            title: self.title@,
            snippets: self.snippets@.map_values(|s: Snippet| s@),
            footers: self.footers@.map_values(|f: Footer| f@),
        }
    }
}

/// The views of a sequence of messages.
pub open spec fn messages_view(m: Seq<Message>) -> Seq<MessageView> {
    m.map_values(|x: Message| x@)
}

/// The views of a sequence of annotations.
pub open spec fn annotations_view(a: Seq<Annotation>) -> Seq<AnnotationView> {
    a.map_values(|x: Annotation| x@)
}

/// The annotation that spans at least `min_len` bytes of `text` from
/// `start`, widened to the next character boundary.
pub open spec fn span_utf8_spec(level: Level, text: Seq<char>, start: int, min_len: int) -> AnnotationView {
    AnnotationView {
        level,
        start,
        end: ceil_boundary(text, start + min_len),
        label: None,
    }
}

/// An annotation of at least `min_len` bytes of `text` from `start`, ending
/// on a character boundary.
pub fn span_utf8(level: Level, text: &str, start: usize, min_len: usize, label: Option<String>) -> (r: Annotation)
    requires
        blen(text@) <= usize::MAX,
        start + min_len <= usize::MAX,
    ensures
        r@ == (AnnotationView { label: opt_view(label), ..span_utf8_spec(level, text@, start as int, min_len as int) }),
{
    let chars = chars_of(text);
    let end = ceil_char_boundary(chars.as_slice(), start + min_len);
    Annotation { level, start, end, label }
}

/// An annotation of the byte range `start..end`.
pub fn span(level: Level, start: usize, end: usize, label: Option<String>) -> (r: Annotation)
    ensures
        r@ == (AnnotationView { level, start: start as int, end: end as int, label: opt_view(label) }),
{
    Annotation { level, start, end, label }
}

/// A copy of an optional string.
pub fn clone_opt(o: &Option<String>) -> (r: Option<String>)
    ensures
        r == *o,
{
    match o {
        Some(s) => Some(s.clone()),
        None => None,
    }
}

/// A snippet of `source`.
pub fn snippet(source: &str, line_start: usize, origin: &Option<String>, fold: bool, annotations: Vec<Annotation>) -> (r: Snippet)
    ensures
        r.source@ == source@,
        r.line_start == line_start,
        r.origin == *origin,
        r.fold == fold,
        r.annotations == annotations,
{
    Snippet { source: String::from_str(source), line_start, origin: clone_opt(origin), fold, annotations }
}

/// A message with one snippet and no footer.
pub fn message1(level: Level, slug: &str, title: String, s: Snippet) -> (r: Message)
    ensures
        r@ == (MessageView {
            level,
            id: Some(slug@),
            title: title@,
            snippets: seq![s@],
            footers: seq![],
        }),
{
    let mut snippets = Vec::new();
    snippets.push(s);
    let r = Message { level, id: Some(String::from_str(slug)), title, snippets, footers: Vec::new() };
    assert(r@.snippets =~= seq![s@]);
    assert(r@.footers =~= seq![]);
    r
}

/// A footer line.
pub fn footer(level: Level, title: String) -> (r: Footer)
    ensures
        r@ == (FooterView { level, title: title@ }),
{
    Footer { level, title }
}

} // verus!
