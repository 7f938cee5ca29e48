//! The lints, and the context they read a proposal from.

pub mod known;
pub mod markdown;
pub mod preamble;

pub use self::known::DefaultLint;

use vstd::prelude::*;

use crate::preamble::{Field, FieldView, Preamble};
use crate::snippets::{
    opt_view, span_utf8, span_utf8_spec, Annotation, AnnotationView, Level, Message, Snippet,
    SnippetView,
};
use crate::tree::Node;

verus! {

/// Why a lint could not run.
#[derive(Debug)]
pub enum Error {
    /// A pattern that the lint was configured with does not compile.
    Custom { message: String },
}

/// The text of an error.
pub open spec fn error_view(e: Error) -> Seq<char> {
    match e {
        Error::Custom { message } => message@,
    }
}

/// The views of what a lint that can fail gives.
pub open spec fn result_view(r: Result<Vec<Message>, Error>) -> Result<Seq<crate::snippets::MessageView>, Seq<char>> {
    match r {
        Ok(m) => Ok(m@.map_values(|x: Message| x@)),
        Err(e) => Err(error_view(e)),
    }
}

/// Another proposal that a lint reads: its number, and its preamble or why
/// it could not be read.
#[derive(Debug)]
pub struct Proposal {
    pub number: u32,
    pub preamble: Option<Preamble>,
    pub error: String,
}

/// The first proposal numbered `n`.
pub open spec fn find_proposal(p: Seq<Proposal>, n: u32) -> Option<Proposal>
    decreases p.len(),
{
    if p.len() == 0 {
        None
    } else if p[0].number == n {
        Some(p[0])
    } else {
        find_proposal(p.drop_first(), n)
    }
}

/// Everything a lint reads about a proposal.
#[derive(Debug)]
pub struct Context {
    /// The whole text of the proposal.
    pub source: String,
    /// The text after the preamble.
    pub body_source: String,
    pub preamble: Preamble,
    /// The markdown nodes of the body, in document order.
    pub body: Vec<Node>,
    /// Where the proposal was read from.
    pub origin: Option<String>,
    /// The level of the messages the lints raise.
    pub annotation_level: Level,
    /// The other proposals that were read for the lints.
    pub proposals: Vec<Proposal>,
}

impl Context {
    /// The preamble's headers are short enough for the lints' offsets.
    pub open spec fn wf(&self) -> bool {
        self.preamble.wf()
    }

    pub open spec fn origin_view(&self) -> Option<Seq<char>> {
        opt_view(self.origin)
    }

    pub fn preamble(&self) -> (r: &Preamble)
        ensures
            r == &self.preamble,
    {
        &self.preamble
    }

    pub fn annotation_level(&self) -> (r: Level)
        ensures
            r == self.annotation_level,
    {
        self.annotation_level
    }

    pub fn origin(&self) -> (r: &Option<String>)
        ensures
            *r == self.origin,
    {
        &self.origin
    }

    pub fn body_source(&self) -> (r: &str)
        ensures
            r@ == self.body_source@,
    {
        self.body_source.as_str()
    }

    /// The first proposal numbered `n` that was read for the lints.
    pub fn proposal(&self, n: u32) -> (r: Option<&Proposal>)
        ensures
            match r {
                Some(p) => find_proposal(self.proposals@, n) == Some(*p),
                None => find_proposal(self.proposals@, n) is None,
            },
    {
        let mut i: usize = 0;
        assert(self.proposals@.skip(0) =~= self.proposals@);
        while i < self.proposals.len()
            invariant
                i <= self.proposals@.len(),
                find_proposal(self.proposals@, n) == find_proposal(self.proposals@.skip(i as int), n),
            decreases self.proposals@.len() - i,
        {
            assert(self.proposals@.skip(i as int)[0] == self.proposals@[i as int]);
            assert(self.proposals@.skip(i as int).drop_first() =~= self.proposals@.skip(i + 1));
            if self.proposals[i].number == n {
                return Some(&self.proposals[i]);
            }
            i += 1;
        }
        None
    }

    pub fn body(&self) -> (r: &Vec<Node>)
        ensures
            r == &self.body,
    {
        &self.body
    }
}

/// The snippet showing a whole header line, unfolded.
pub open spec fn field_snippet_spec(
    f: FieldView,
    origin: Option<Seq<char>>,
    annotations: Seq<AnnotationView>,
) -> SnippetView {
    SnippetView {
        source: f.source,
        line_start: f.line_start,
        origin,
        fold: false,
        annotations,
    }
}

/// A snippet showing a header's line.
pub fn field_snippet(f: &Field, origin: &Option<String>, annotations: Vec<Annotation>) -> (r: Snippet)
    ensures
        r@ == field_snippet_spec(f@, opt_view(*origin), annotations@.map_values(|a: Annotation| a@)),
{
    let s = crate::snippets::snippet(f.source(), f.line_start(), origin, false, annotations);
    s
}

/// An annotation of `len` bytes of a header line, from byte `start`.
pub open spec fn line_span_spec(level: Level, f: FieldView, start: int, len: int, label: Seq<char>) -> AnnotationView {
    AnnotationView { label: Some(label), ..span_utf8_spec(level, f.source, start, len) }
}

/// The annotation of a header's value (as the lints mark it: from just
/// after the name, as long as the value).
pub open spec fn value_span_spec(level: Level, f: FieldView, label: Seq<char>) -> AnnotationView {
    line_span_spec(level, f, (crate::text::blen(f.name) + 1) as int, crate::text::blen(f.value) as int, label)
}

/// An annotation of `len` bytes of a header line, from byte `start`.
pub fn line_span(level: Level, f: &Field, start: usize, len: usize, label: &str) -> (r: Annotation)
    requires
        f@.wf(),
        start + len <= usize::MAX,
    ensures
        r@ == line_span_spec(level, f@, start as int, len as int, label@),
{
    span_utf8(level, f.source(), start, len, Some(String::from_str(label)))
}

/// The annotation of a header's value.
pub fn value_span(level: Level, f: &Field, label: &str) -> (r: Annotation)
    requires
        f@.wf(),
    ensures
        r@ == value_span_spec(level, f@, label@),
{
    let n = crate::text::str_byte_len(f.name());
    let v = crate::text::str_byte_len(f.value());
    line_span(level, f, n + 1, v, label)
}

/// The message a lint raises: level, slug, title, snippets and footers.
pub open spec fn lint_message(
    level: Level,
    slug: Seq<char>,
    title: Seq<char>,
    snippets: Seq<SnippetView>,
    footers: Seq<crate::snippets::FooterView>,
) -> crate::snippets::MessageView {
    crate::snippets::MessageView { level, id: Some(slug), title, snippets, footers }
}

/// A message with the given parts.
pub fn new_message(level: Level, slug: &str, title: String, snippets: Vec<Snippet>, footers: Vec<crate::snippets::Footer>) -> (r: Message)
    ensures
        r@ == lint_message(
            level,
            slug@,
            title@,
            snippets@.map_values(|s: Snippet| s@),
            footers@.map_values(|f: crate::snippets::Footer| f@),
        ),
{
    Message { level, id: Some(String::from_str(slug)), title, snippets, footers }
}

/// A message with one snippet and no footer.
pub fn message_one(level: Level, slug: &str, title: String, snip: Snippet) -> (r: Message)
    ensures
        r@ == lint_message(level, slug@, title@, seq![snip@], seq![]),
{
    let m = new_message(level, slug, title, vec1(snip), Vec::new());
    assert(m@.snippets =~= seq![snip@]);
    assert(m@.footers =~= seq![]);
    m
}

/// A snippet of a header line with one annotation.
pub fn field_snippet1(f: &Field, origin: &Option<String>, ann: Annotation) -> (r: Snippet)
    ensures
        r@ == field_snippet_spec(f@, opt_view(*origin), seq![ann@]),
{
    let ghost a = ann@;
    let s = field_snippet(f, origin, vec1(ann));
    assert(s@.annotations =~= seq![a]);
    s
}

/// A snippet of a header line with no annotation.
pub fn field_snippet0(f: &Field, origin: &Option<String>) -> (r: Snippet)
    ensures
        r@ == field_snippet_spec(f@, opt_view(*origin), seq![]),
{
    let s = field_snippet(f, origin, Vec::new());
    assert(s@.annotations =~= seq![]);
    s
}

/// The first header named `name`, which is short enough for the lints'
/// offsets.
pub fn get_field<'c>(ctx: &'c Context, name: &str) -> (r: Option<&'c Field>)
    requires
        ctx.wf(),
    ensures
        match r {
            Some(f) => crate::preamble::find_field(ctx.preamble@, name@) == Some(f@) && f@.wf(),
            None => crate::preamble::find_field(ctx.preamble@, name@) is None,
        },
{
    let r = ctx.preamble().by_name(name);
    proof {
        if let Some(f) = r {
            let k = choose|k: int| 0 <= k < ctx.preamble.fields@.len() && ctx.preamble.fields@[k] == *f;
            assert(ctx.preamble.fields@[k]@.wf());
        }
    }
    r
}

/// The empty list of messages.
pub fn no_messages() -> (r: Vec<Message>)
    ensures
        r@.map_values(|m: Message| m@) == Seq::<crate::snippets::MessageView>::empty(),
{
    let r: Vec<Message> = Vec::new();
    assert(r@.map_values(|m: Message| m@) =~= Seq::<crate::snippets::MessageView>::empty());
    r
}

/// `items` joined with `sep` between them.
pub open spec fn join(items: Seq<Seq<char>>, sep: Seq<char>) -> Seq<char>
    decreases items.len(),
{
    if items.len() == 0 {
        Seq::empty()
    } else if items.len() == 1 {
        items[0]
    } else {
        join(items.drop_last(), sep) + sep + items.last()
    }
}

/// The views of a sequence of strings.
pub open spec fn strings_view(v: Seq<String>) -> Seq<Seq<char>> {
    v.map_values(|s: String| s@)
}

/// Joins `items` with `sep` between them.
pub fn join_strings(items: &Vec<String>, sep: &str) -> (r: String)
    ensures
        r@ == join(strings_view(items@), sep@),
{
    let mut r = String::new();
    let mut i: usize = 0;
    while i < items.len()
        invariant
            i <= items@.len(),
            r@ == join(strings_view(items@.take(i as int)), sep@),
        decreases items@.len() - i,
    {
        proof {
            assert(strings_view(items@.take(i + 1)).drop_last() =~= strings_view(items@.take(i as int)));
            assert(strings_view(items@.take(i + 1)).last() == items@[i as int]@);
        }
        if i > 0 {
            r.append(sep);
        } else {
            assert(r@ =~= Seq::<char>::empty());
        }
        r.append(items[i].as_str());
        i += 1;
    }
    assert(items@.take(items@.len() as int) =~= items@);
    r
}

/// A vector holding one element.
pub fn vec1<T>(x: T) -> (r: Vec<T>)
    ensures
        r@ == seq![x],
{
    let mut v = Vec::new();
    v.push(x);
    assert(v@ =~= seq![x]);
    v
}

} // verus!
