//! Lints on the markdown body, and how they show a node of the body.

pub mod code_block_license;
pub mod copyright;
pub mod heading_first;
pub mod headings_space;
pub mod html_comments;
pub mod json_schema;
pub mod link_eip;
pub mod link_first;
pub mod link_status;
pub mod link_text_format;
pub mod no_backticks;
pub mod no_emphasis_keywords;
pub mod no_smart_quotes;
pub mod prevent_url;
pub mod proposal_ref;
pub mod regex;
pub mod relative_links;
pub mod require_referenced;
pub mod requires_ref_body;
pub mod section_order;
pub mod section_required;
pub mod section_text;
pub mod spell;

pub use self::code_block_license::CodeBlockLicense;
pub use self::copyright::Copyright;
pub use self::heading_first::HeadingFirst;
pub use self::headings_space::HeadingsSpace;
pub use self::html_comments::HtmlComments;
pub use self::json_schema::JsonSchema;
pub use self::link_eip::LinkEip;
pub use self::link_first::LinkFirst;
pub use self::link_status::LinkStatus;
pub use self::link_text_format::LinkTextFormat;
pub use self::no_backticks::NoBackticks;
pub use self::no_emphasis_keywords::{EmphasisType, NoEmphasisKeywords};
pub use self::no_smart_quotes::NoSmartQuotes;
pub use self::prevent_url::PreventUrlsNoBackticks;
pub use self::proposal_ref::ProposalRef;
pub use self::regex::{MarkdownRegex, Mode};
pub use self::relative_links::RelativeLinks;
pub use self::require_referenced::RequireReferenced;
pub use self::requires_ref_body::RequiresRefBody;
pub use self::section_order::SectionOrder;
pub use self::section_required::SectionRequired;
pub use self::section_text::SectionText;
pub use self::spell::{Mistake, Spell};

use vstd::prelude::*;

use crate::lints::{join, Context};
use crate::snippets::{opt_view, span_utf8, Annotation, AnnotationView, Level, Snippet, SnippetView};
use crate::text::{blen, byte_len, char_index, chars_of, lemma_split_offsets, piece_offset, split, split_chars, string_of};
use crate::tree::{Node, NodeKind};

verus! {

/// The text a node carries, if it is a text node.
pub open spec fn text_of(n: Node) -> Seq<char> {
    match n.value {
        crate::tree::NodeKind::Text(t) => t@,
        _ => Seq::empty(),
    }
}

/// The index just past the nodes from `k` on that lie below node `i`.
pub open spec fn subtree_end(b: Seq<Node>, i: int, k: int) -> int
    decreases b.len() - k,
{
    if k >= b.len() || k < 0 || b[k].depth <= b[i].depth {
        k
    } else {
        subtree_end(b, i, k + 1)
    }
}

/// The texts of nodes `a..c`, concatenated.
pub open spec fn texts_between(b: Seq<Node>, a: int, c: int) -> Seq<char>
    decreases c - a,
{
    if c <= a {
        Seq::empty()
    } else {
        texts_between(b, a, c - 1) + text_of(b[c - 1])
    }
}

/// The text of a heading: the texts of the nodes below it, concatenated.
pub open spec fn heading_text(b: Seq<Node>, i: int) -> Seq<char> {
    texts_between(b, i + 1, subtree_end(b, i, i + 1))
}

/// Node `i` is a heading of level 2.
pub open spec fn is_section(b: Seq<Node>, i: int) -> bool {
    b[i].value matches crate::tree::NodeKind::Heading(l) && l == 2
}

/// The indices of the level-2 headings among the first `k` nodes.
pub open spec fn sections(b: Seq<Node>, k: int) -> Seq<int>
    decreases k,
{
    if k <= 0 {
        seq![]
    } else if is_section(b, k - 1) {
        sections(b, k - 1).push(k - 1)
    } else {
        sections(b, k - 1)
    }
}

/// The texts of the level-2 headings, in order.
pub open spec fn section_texts(b: Seq<Node>) -> Seq<Seq<char>> {
    sections(b, b.len() as int).map_values(|i: int| heading_text(b, i))
}

/// The text of the heading at `i`.
pub fn heading_text_of(b: &Vec<Node>, i: usize) -> (r: String)
    requires
        i < b@.len(),
    ensures
        r@ == heading_text(b@, i as int),
{
    let len = b.len();
    let mut text = String::new();
    let mut k: usize = i + 1;
    assert(texts_between(b@, i + 1, i + 1) =~= Seq::<char>::empty());
    while k < b.len() && b[k].depth > b[i].depth
        invariant
            i < k <= b@.len(),
            subtree_end(b@, i as int, i + 1) == subtree_end(b@, i as int, k as int),
            text@ == texts_between(b@, i + 1, k as int),
        decreases b@.len() - k,
    {
        if let crate::tree::NodeKind::Text(t) = &b[k].value {
            text.append(t.as_str());
        }
        assert(texts_between(b@, i + 1, k + 1) =~= texts_between(b@, i + 1, k as int) + text_of(b@[k as int]));
        k += 1;
    }
    text
}

/// The level-2 headings: their positions and texts, in order.
pub fn section_headings(b: &Vec<Node>) -> (r: (Vec<usize>, Vec<String>))
    ensures
        r.0@.map_values(|i: usize| i as int) == sections(b@, b@.len() as int),
        crate::lints::strings_view(r.1@) == section_texts(b@),
{
    let mut at: Vec<usize> = Vec::new();
    let mut texts: Vec<String> = Vec::new();
    let mut i: usize = 0;
    while i < b.len()
        invariant
            i <= b@.len(),
            at@.map_values(|i: usize| i as int) == sections(b@, i as int),
            crate::lints::strings_view(texts@) == sections(b@, i as int).map_values(|j: int| heading_text(b@, j)),
        decreases b@.len() - i,
    {
        let is = match &b[i].value {
            crate::tree::NodeKind::Heading(l) => *l == 2,
            _ => false,
        };
        let ghost at0 = at@;
        let ghost texts0 = texts@;
        if is {
            let t = heading_text_of(b, i);
            at.push(i);
            texts.push(t);
            assert(crate::lints::strings_view(texts@) =~= crate::lints::strings_view(texts0).push(heading_text(b@, i as int)));
            assert(sections(b@, i + 1) == sections(b@, i as int).push(i as int));
            assert(sections(b@, i + 1).map_values(|j: int| heading_text(b@, j)) =~= sections(b@, i as int).map_values(|j: int| heading_text(b@, j)).push(heading_text(b@, i as int)));
        } else {
            assert(sections(b@, i + 1) == sections(b@, i as int));
        }
        assert(at@.map_values(|i: usize| i as int) =~= sections(b@, i + 1));
        assert(crate::lints::strings_view(texts@) =~= sections(b@, i + 1).map_values(|j: int| heading_text(b@, j)));
        i += 1;
    }
    (at, texts)
}

/// The non-blank lines among the first `k` of `lines`, trimmed, in order.
pub open spec fn nonblank(lines: Seq<Seq<char>>, k: int) -> Seq<Seq<char>>
    decreases k,
{
    if k <= 0 {
        seq![]
    } else if crate::text::trim(lines[k - 1]).len() == 0 {
        nonblank(lines, k - 1)
    } else {
        nonblank(lines, k - 1).push(crate::text::trim(lines[k - 1]))
    }
}

/// The non-blank lines of a text, trimmed, in order.
pub open spec fn nonblank_lines(text: Seq<char>) -> Seq<Seq<char>> {
    nonblank(split(text, '\n'), split(text, '\n').len() as int)
}

/// The lines end with `a` then `b`.
pub open spec fn ends_with_two(lines: Seq<Seq<char>>, a: Seq<char>, b: Seq<char>) -> bool {
    lines.len() >= 2 && lines[lines.len() - 2] == a && lines[lines.len() - 1] == b
}

/// The non-blank lines of a text, trimmed.
pub fn nonblank_lines_of(text: &str) -> (r: Vec<String>)
    ensures
        crate::lints::strings_view(r@) == nonblank_lines(text@),
{
    let lines = lines_of(text);
    let ghost sl = split(text@, '\n');
    let mut r: Vec<String> = Vec::new();
    let mut i: usize = 0;
    while i < lines.len()
        invariant
            sl == split(text@, '\n'),
            lines@.len() == sl.len(),
            forall|j: int| 0 <= j < lines@.len() ==> #[trigger] lines@[j]@ == sl[j],
            i <= lines@.len(),
            crate::lints::strings_view(r@) == nonblank(sl, i as int),
        decreases lines@.len() - i,
    {
        let t = crate::text::trim_chars(lines[i].as_slice());
        let ghost before = r@;
        if t.len() > 0 {
            r.push(string_of(t.as_slice()));
            assert(crate::lints::strings_view(r@) =~= crate::lints::strings_view(before).push(t@));
        }
        i += 1;
    }
    r
}

/// Whether the lines end with `a` then `b`.
pub fn ends_with_two_exec(lines: &Vec<String>, a: &str, b: &str) -> (r: bool)
    ensures
        r == ends_with_two(crate::lints::strings_view(lines@), a@, b@),
{
    let n = lines.len();
    if n < 2 {
        return false;
    }
    crate::text::str_eq(lines[n - 2].as_str(), a) && crate::text::str_eq(lines[n - 1].as_str(), b)
}

/// The first node among the first `k` that is a heading of level `level`
/// with text `text`.
pub open spec fn first_heading(b: Seq<Node>, level: u8, text: Seq<char>, k: int) -> Option<int>
    decreases k,
{
    if k <= 0 {
        None
    } else {
        match first_heading(b, level, text, k - 1) {
            Some(i) => Some(i),
            None => if b[k - 1].value == crate::tree::NodeKind::Heading(level) && heading_text(b, k - 1) == text {
                Some(k - 1)
            } else {
                None
            },
        }
    }
}

/// The first heading of level `level` with text `text`.
pub fn find_heading(b: &Vec<Node>, level: u8, text: &str) -> (r: Option<usize>)
    ensures
        match r {
            Some(i) => i < b@.len() && first_heading(b@, level, text@, b@.len() as int) == Some(i as int),
            None => first_heading(b@, level, text@, b@.len() as int) is None,
        },
{
    let mut i: usize = 0;
    while i < b.len()
        invariant
            i <= b@.len(),
            first_heading(b@, level, text@, i as int) is None,
        decreases b@.len() - i,
    {
        let is = match &b[i].value {
            crate::tree::NodeKind::Heading(l) => *l == level,
            _ => false,
        };
        if is && crate::text::str_eq(heading_text_of(b, i).as_str(), text) {
            proof {
                lemma_first_heading_stays(b@, level, text@, i + 1, b@.len() as int);
            }
            return Some(i);
        }
        i += 1;
    }
    None
}

proof fn lemma_first_heading_stays(b: Seq<Node>, level: u8, text: Seq<char>, k: int, n: int)
    requires
        0 <= k <= n,
        first_heading(b, level, text, k) is Some,
    ensures
        first_heading(b, level, text, n) == first_heading(b, level, text, k),
    decreases n - k,
{
    if k < n {
        lemma_first_heading_stays(b, level, text, k, n - 1);
    }
}

/// The lines of the proposal, split at line feeds.
pub open spec fn source_lines(ctx: &Context) -> Seq<Seq<char>> {
    split(ctx.source@, '\n')
}

/// The texts a node carries are short enough for byte offsets.
pub open spec fn node_fits(n: Node) -> bool {
    let b = crate::preamble::text_bound();
    match n.value {
        NodeKind::FrontMatter(t) => blen(t@) <= b,
        NodeKind::Text(t) => blen(t@) <= b,
        NodeKind::Code(t) => blen(t@) <= b,
        NodeKind::HtmlBlock(t) => blen(t@) <= b,
        NodeKind::HtmlInline(t) => blen(t@) <= b,
        NodeKind::FootnoteDefinition(t) => blen(t@) <= b,
        NodeKind::FootnoteReference(t) => blen(t@) <= b,
        NodeKind::CodeBlock { info, literal } => blen(info@) <= b && blen(literal@) <= b,
        NodeKind::Link { url, title } => blen(url@) <= b && blen(title@) <= b,
        NodeKind::Image { url, title } => blen(url@) <= b && blen(title@) <= b,
        _ => true,
    }
}

/// Whether a node's texts are short enough for byte offsets.
fn node_fits_exec(n: &Node) -> (r: bool)
    ensures
        r == node_fits(*n),
{
    let b: usize = usize::MAX / 4;
    match &n.value {
        NodeKind::FrontMatter(t) => crate::text::blen_at_most(t.as_str(), b),
        NodeKind::Text(t) => crate::text::blen_at_most(t.as_str(), b),
        NodeKind::Code(t) => crate::text::blen_at_most(t.as_str(), b),
        NodeKind::HtmlBlock(t) => crate::text::blen_at_most(t.as_str(), b),
        NodeKind::HtmlInline(t) => crate::text::blen_at_most(t.as_str(), b),
        NodeKind::FootnoteDefinition(t) => crate::text::blen_at_most(t.as_str(), b),
        NodeKind::FootnoteReference(t) => crate::text::blen_at_most(t.as_str(), b),
        NodeKind::CodeBlock { info, literal } => crate::text::blen_at_most(info.as_str(), b)
            && crate::text::blen_at_most(literal.as_str(), b),
        NodeKind::Link { url, title } => crate::text::blen_at_most(url.as_str(), b)
            && crate::text::blen_at_most(title.as_str(), b),
        NodeKind::Image { url, title } => crate::text::blen_at_most(url.as_str(), b)
            && crate::text::blen_at_most(title.as_str(), b),
        _ => true,
    }
}

/// Node `n` lies on lines of the proposal: its first line is not the first
/// line of the proposal, it does not end before it starts, its first column
/// counts from 1 (its last may be 0, as for a block that ends with a blank
/// line), and its texts are short enough for byte offsets.
pub open spec fn node_in_source(ctx: &Context, n: Node) -> bool {
    &&& 2 <= n.start_line <= n.end_line <= source_lines(ctx).len()
    &&& 1 <= n.start_column <= crate::preamble::text_bound()
    &&& n.end_column <= crate::preamble::text_bound()
    &&& node_fits(n)
}

impl Context {
    /// The proposal is short enough for byte offsets into it, the body has
    /// its document node, and every node of the body lies on the
    /// proposal's lines.
    pub open spec fn body_wf(&self) -> bool {
        &&& blen(self.source@) <= crate::preamble::text_bound()
        &&& self.body@.len() > 0
        &&& forall|i: int| 0 <= i < self.body@.len() ==> node_in_source(self, #[trigger] self.body@[i])
    }
}

/// Every node of a well-formed body starts on a line of the proposal.
pub proof fn lemma_node_line(ctx: &Context, i: int)
    requires
        ctx.body_wf(),
        0 <= i < ctx.body@.len(),
    ensures
        ctx.body@[i].start_line >= 1,
{
    assert(node_in_source(ctx, ctx.body@[i]));
}

/// The byte offset at which line `line` (from 1) of the proposal starts.
pub open spec fn line_index(ctx: &Context, line: int) -> int {
    piece_offset(source_lines(ctx), line - 1)
}

/// The lines from the first to the last line of node `n`.
pub open spec fn ast_lines_spec(ctx: &Context, n: Node) -> Seq<char> {
    join(source_lines(ctx).subrange(n.start_line - 1, n.end_line as int), "\n"@)
}

/// The annotation of node `n` within its lines: from its first column,
/// at least as many bytes as lie from its start line to its end.
pub open spec fn ast_annotation(ctx: &Context, n: Node, level: Level, label: Option<Seq<char>>) -> AnnotationView {
    let start_index = n.start_column - 1;
    let end_index = line_index(ctx, n.end_line as int) + n.end_column - 1 - line_index(ctx, n.start_line as int);
    AnnotationView { label, ..crate::snippets::span_utf8_spec(level, ast_lines_spec(ctx, n), start_index, end_index + 1) }
}

/// The folded snippet of node `n`'s lines, annotating the node.
pub open spec fn ast_snippet_spec(ctx: &Context, n: Node, level: Level, label: Option<Seq<char>>) -> SnippetView {
    SnippetView {
        source: ast_lines_spec(ctx, n),
        line_start: n.start_line as int,
        origin: ctx.origin_view(),
        fold: true,
        annotations: seq![ast_annotation(ctx, n, level, label)],
    }
}

/// The byte offset in the proposal of a node's line and column.
pub open spec fn line_column_index(ctx: &Context, line: int, column: int) -> int {
    line_index(ctx, line) + column - 1
}

/// The text of node `n`: the proposal from its first byte through its
/// last.
pub open spec fn ast_source_spec(ctx: &Context, n: Node) -> Seq<char> {
    let s = ctx.source@;
    let a = line_column_index(ctx, n.start_line as int, n.start_column as int);
    let b = line_column_index(ctx, n.end_line as int, n.end_column as int) + 1;
    s.subrange(crate::lints::preamble::proposal_ref::chars_before(s, a), crate::lints::preamble::proposal_ref::chars_before(s, b))
}

/// The node's first and last bytes lie on character boundaries of the
/// proposal, in order.
pub open spec fn ast_source_ok(ctx: &Context, n: Node) -> bool {
    let a = line_column_index(ctx, n.start_line as int, n.start_column as int);
    let b = line_column_index(ctx, n.end_line as int, n.end_column as int) + 1;
    &&& a <= b
    &&& crate::text::is_boundary(ctx.source@, a)
    &&& crate::text::is_boundary(ctx.source@, b)
}

/// The text of line `line` (from 1) of the proposal.
pub open spec fn line_spec(ctx: &Context, line: int) -> Seq<char> {
    source_lines(ctx)[line - 1]
}

/// The lines of the proposal from `line`, as many as `text` has line
/// feeds (at least one), joined by line feeds.
pub open spec fn source_for_text_spec(ctx: &Context, line: int, text: Seq<char>) -> Seq<char> {
    let lines = source_lines(ctx);
    let rest = lines.skip(if line - 1 < lines.len() { line - 1 } else { lines.len() as int });
    let want = if crate::process::count_char(text, '\n') > 1 { crate::process::count_char(text, '\n') as int } else { 1 };
    let n = if want < rest.len() { want } else { rest.len() as int };
    join(rest.take(n), "\n"@)
}

/// The lines of a text, as strings.
fn lines_of(source: &str) -> (r: Vec<Vec<char>>)
    ensures
        r@.len() == split(source@, '\n').len(),
        forall|i: int| 0 <= i < r@.len() ==> #[trigger] r@[i]@ == split(source@, '\n')[i],
{
    let chars = chars_of(source);
    split_chars(chars.as_slice(), '\n')
}

/// Joins lines `a..b` with line feeds.
fn join_lines(lines: &Vec<Vec<char>>, a: usize, b: usize) -> (r: String)
    requires
        a <= b <= lines@.len(),
    ensures
        r@ == join(lines@.subrange(a as int, b as int).map_values(|l: Vec<char>| l@), "\n"@),
{
    let mut v: Vec<String> = Vec::new();
    let mut i: usize = a;
    while i < b
        invariant
            a <= i <= b <= lines@.len(),
            crate::lints::strings_view(v@) == lines@.subrange(a as int, i as int).map_values(|l: Vec<char>| l@),
        decreases b - i,
    {
        let t = string_of(lines[i].as_slice());
        let ghost before = v@;
        v.push(t);
        assert(crate::lints::strings_view(v@) =~= crate::lints::strings_view(before).push(lines@[i as int]@));
        assert(lines@.subrange(a as int, i + 1).map_values(|l: Vec<char>| l@) =~= lines@.subrange(a as int, i as int).map_values(|l: Vec<char>| l@).push(lines@[i as int]@));
        i += 1;
    }
    crate::lints::join_strings(&v, "\n")
}

/// The byte offset at which line `k` (from 0) starts.
fn line_offset(lines: &Vec<Vec<char>>, k: usize, ghost_s: Ghost<Seq<char>>) -> (r: usize)
    requires
        k < lines@.len(),
        lines@.len() == split(ghost_s@, '\n').len(),
        forall|i: int| 0 <= i < lines@.len() ==> #[trigger] lines@[i]@ == split(ghost_s@, '\n')[i],
        blen(ghost_s@) <= crate::preamble::text_bound(),
    ensures
        r == piece_offset(split(ghost_s@, '\n'), k as int),
{
    let ghost p = split(ghost_s@, '\n');
    proof {
        lemma_split_offsets(ghost_s@, '\n');
    }
    let mut n: usize = 0;
    let mut i: usize = 0;
    while i < k
        invariant
            i <= k < lines@.len(),
            p == split(ghost_s@, '\n'),
            lines@.len() == p.len(),
            forall|j: int| 0 <= j < lines@.len() ==> #[trigger] lines@[j]@ == p[j],
            forall|j: int| 0 <= j < p.len() ==> piece_offset(p, j) + blen(#[trigger] p[j]) <= blen(ghost_s@),
            blen(ghost_s@) <= crate::preamble::text_bound(),
            n == piece_offset(p, i as int),
        decreases k - i,
    {
        proof {
            crate::text::lemma_piece_offset_mono(p, i + 1, k as int);
        }
        n = n + byte_len(lines[i].as_slice()) + 1;
        i += 1;
    }
    n
}

/// The lines `a..b` joined by line feeds are as long, in bytes, as the
/// text they span.
pub proof fn lemma_join_lines_blen(p: Seq<Seq<char>>, a: int, b: int)
    requires
        0 <= a < b <= p.len(),
    ensures
        blen(join(p.subrange(a, b), "\n"@)) == piece_offset(p, b - 1) + blen(p[b - 1]) - piece_offset(p, a),
    decreases b - a,
{
    reveal_strlit("\n");
    let sub = p.subrange(a, b);
    if b - a == 1 {
        assert(join(sub, "\n"@) == sub[0]);
    } else {
        lemma_join_lines_blen(p, a, b - 1);
        assert(sub.drop_last() =~= p.subrange(a, b - 1));
        crate::text::lemma_blen_concat(join(p.subrange(a, b - 1), "\n"@), "\n"@);
        crate::text::lemma_blen_concat(join(p.subrange(a, b - 1), "\n"@) + "\n"@, p[b - 1]);
        assert(blen("\n"@) == 1) by {
            assert("\n"@ =~= seq!['\n']);
            assert(seq!['\n'].drop_last() =~= Seq::<char>::empty());
            assert(crate::text::char_blen('\n') == 1);
            assert(blen(Seq::<char>::empty()) == 0);
            assert(blen(seq!['\n']) == blen(seq!['\n'].drop_last()) + crate::text::char_blen('\n'));
        }
    }
}

/// The lines shown for a text are no longer, in bytes, than the proposal.
pub proof fn lemma_source_for_text_blen(ctx: &Context, line: int, text: Seq<char>)
    requires
        line >= 1,
    ensures
        blen(source_for_text_spec(ctx, line, text)) <= blen(ctx.source@),
{
    let p = source_lines(ctx);
    lemma_split_offsets(ctx.source@, '\n');
    let a = if line - 1 < p.len() { line - 1 } else { p.len() as int };
    let rest = p.skip(a);
    let want = if crate::process::count_char(text, '\n') > 1 { crate::process::count_char(text, '\n') as int } else { 1 };
    let n = if want < rest.len() { want } else { rest.len() as int };
    if n > 0 {
        assert(rest.take(n) =~= p.subrange(a, a + n));
        lemma_join_lines_blen(p, a, a + n);
        crate::text::lemma_piece_offset_mono(p, 0, a);
        assert(piece_offset(p, 0) == 0);
        assert(piece_offset(p, a + n - 1) + blen(p[a + n - 1]) <= blen(ctx.source@));
    } else {
        assert(rest.take(n) =~= Seq::<Seq<char>>::empty());
        assert(blen(Seq::<char>::empty()) == 0);
    }
}

/// A node's lines are no longer, in bytes, than the proposal.
pub proof fn lemma_ast_lines_blen(ctx: &Context, n: Node)
    requires
        node_in_source(ctx, n),
    ensures
        blen(ast_lines_spec(ctx, n)) <= blen(ctx.source@),
{
    let p = source_lines(ctx);
    lemma_split_offsets(ctx.source@, '\n');
    lemma_join_lines_blen(p, n.start_line - 1, n.end_line as int);
    crate::text::lemma_piece_offset_mono(p, 0, n.start_line - 1);
    assert(piece_offset(p, 0) == 0);
    assert(piece_offset(p, n.end_line - 1) + blen(p[n.end_line - 1]) <= blen(ctx.source@));
}

impl Context {
    /// Whether the context is one the lints can read: its headers and text
    /// are short enough for byte offsets, and every node of the body lies
    /// on the proposal's lines.
    pub fn check_wf(&self) -> (r: bool)
        ensures
            r == (self.wf() && self.body_wf()),
    {
        let bound: usize = usize::MAX / 4;
        let fields = &self.preamble.fields;
        if fields.len() > bound {
            return false;
        }
        let mut i: usize = 0;
        while i < fields.len()
            invariant
                fields == &self.preamble.fields,
                bound == crate::preamble::text_bound(),
                i <= fields@.len(),
                forall|k: int| 0 <= k < i ==> (#[trigger] fields@[k])@.wf(),
            decreases fields@.len() - i,
        {
            let f = &fields[i];
            if !crate::text::blen_at_most(f.name.as_str(), bound) || !crate::text::blen_at_most(f.value.as_str(), bound)
                || !crate::text::blen_at_most(f.source.as_str(), bound) || f.line_start > bound {
                assert(!fields@[i as int]@.wf());
                return false;
            }
            i += 1;
        }
        assert(self.wf());
        if !crate::text::blen_at_most(self.source.as_str(), bound) || self.body.len() == 0 {
            return false;
        }
        let lines = lines_of(self.source.as_str());
        let n = lines.len();
        let mut j: usize = 0;
        while j < self.body.len()
            invariant
                bound == crate::preamble::text_bound(),
                n == source_lines(self).len(),
                j <= self.body@.len(),
                forall|k: int| 0 <= k < j ==> node_in_source(self, #[trigger] self.body@[k]),
            decreases self.body@.len() - j,
        {
            let b = &self.body[j];
            if !(2 <= b.start_line && b.start_line <= b.end_line && b.end_line <= n && 1 <= b.start_column
                && b.start_column <= bound && b.end_column <= bound && node_fits_exec(b)) {
                assert(!node_in_source(self, self.body@[j as int]));
                return false;
            }
            j += 1;
        }
        true
    }

    /// The text of line `line` (from 1).
    pub fn line(&self, line: usize) -> (r: String)
        requires
            1 <= line <= source_lines(self).len(),
        ensures
            r@ == line_spec(self, line as int),
    {
        let lines = lines_of(self.source.as_str());
        string_of(lines[line - 1].as_slice())
    }

    /// The lines from `line` on, as many as `text` has line feeds (at
    /// least one), joined by line feeds.
    pub fn source_for_text(&self, line: usize, text: &str) -> (r: String)
        requires
            line >= 1,
        ensures
            r@ == source_for_text_spec(self, line as int, text@),
    {
        let lines = lines_of(self.source.as_str());
        let t = chars_of(text);
        proof {
            crate::text::lemma_len_le_blen(text@);
        }
        let mut newlines: usize = 0;
        let mut i: usize = 0;
        while i < t.len()
            invariant
                i <= t@.len(),
                newlines == crate::process::count_char(t@.take(i as int), '\n'),
                newlines <= i,
            decreases t@.len() - i,
        {
            assert(t@.take(i + 1).drop_last() =~= t@.take(i as int));
            if t[i] == '\n' {
                newlines += 1;
            }
            i += 1;
        }
        assert(t@.take(t@.len() as int) =~= t@);
        let want: usize = if newlines > 1 { newlines } else { 1 };
        let start: usize = if line - 1 < lines.len() { line - 1 } else { lines.len() };
        let avail = lines.len() - start;
        let n = if want < avail { want } else { avail };
        let r = join_lines(&lines, start, start + n);
        proof {
            let rest = source_lines(self).skip(start as int);
            assert(rest.len() == avail);
            assert(lines@.subrange(start as int, start + n).map_values(|l: Vec<char>| l@) =~= rest.take(n as int));
        }
        r
    }

    /// The lines from the first to the last line of node `n`.
    pub fn ast_lines(&self, n: &Node) -> (r: String)
        requires
            node_in_source(self, *n),
        ensures
            r@ == ast_lines_spec(self, *n),
    {
        let lines = lines_of(self.source.as_str());
        let r = join_lines(&lines, n.start_line - 1, n.end_line);
        assert(lines@.subrange(n.start_line - 1, n.end_line as int).map_values(|l: Vec<char>| l@)
            =~= source_lines(self).subrange(n.start_line - 1, n.end_line as int));
        r
    }

    /// The text of a node, from its first byte through its last.
    pub fn ast_source(&self, n: &Node) -> (r: String)
        requires
            self.body_wf(),
            node_in_source(self, *n),
            ast_source_ok(self, *n),
        ensures
            r@ == ast_source_spec(self, *n),
    {
        let lines = lines_of(self.source.as_str());
        let ghost p = source_lines(self);
        proof {
            lemma_split_offsets(self.source@, '\n');
        }
        let first = line_offset(&lines, n.start_line - 1, Ghost(self.source@));
        let last = line_offset(&lines, n.end_line - 1, Ghost(self.source@));
        let chars = chars_of(self.source.as_str());
        proof {
            crate::text::lemma_len_le_blen(self.source@);
            let (ka, kb) = (
                choose|k: int| 0 <= k <= self.source@.len() && blen(self.source@.take(k)) == line_column_index(self, n.start_line as int, n.start_column as int),
                choose|k: int| 0 <= k <= self.source@.len() && blen(self.source@.take(k)) == line_column_index(self, n.end_line as int, n.end_column as int) + 1,
            );
            crate::text::lemma_blen_take_mono(self.source@, kb, self.source@.len() as int);
            assert(self.source@.take(self.source@.len() as int) =~= self.source@);
        }
        let a = char_index(chars.as_slice(), first + n.start_column - 1);
        let b = char_index(chars.as_slice(), last + n.end_column);
        proof {
            crate::lints::preamble::proposal_ref::lemma_chars_before(self.source@, (first + n.start_column - 1) as int, a as int);
            crate::lints::preamble::proposal_ref::lemma_chars_before(self.source@, (last + n.end_column) as int, b as int);
            if a > b {
                crate::text::lemma_blen_take_mono(self.source@, b as int, a as int);
            }
        }
        let piece = vstd::slice::slice_subrange(chars.as_slice(), a, b);
        string_of(piece)
    }

    /// The folded snippet of a node's lines, annotating the node at the
    /// given level (or the context's), with an optional label.
    #[verifier::rlimit(40)]
    #[verifier::spinoff_prover]
    pub fn ast_snippet(&self, n: &Node, level: Option<Level>, label: Option<String>) -> (r: Snippet)
        requires
            self.body_wf(),
            node_in_source(self, *n),
        ensures
            r@ == ast_snippet_spec(
                self,
                *n,
                match level {
                    Some(l) => l,
                    None => self.annotation_level,
                },
                opt_view(label),
            ),
    {
        let lines = lines_of(self.source.as_str());
        let ghost p = source_lines(self);
        proof {
            lemma_split_offsets(self.source@, '\n');
            crate::text::lemma_piece_offset_mono(p, n.start_line - 1, n.end_line - 1);
        }
        let first = line_offset(&lines, n.start_line - 1, Ghost(self.source@));
        let last = line_offset(&lines, n.end_line - 1, Ghost(self.source@));
        let source = self.ast_lines(n);
        let level = match level {
            Some(l) => l,
            None => self.annotation_level,
        };
        let start_index = n.start_column - 1;
        let end_len = last + n.end_column - first;
        proof {
            lemma_join_lines_blen(p, n.start_line - 1, n.end_line as int);
        }
        let ann = span_utf8(level, source.as_str(), start_index, end_len, label);
        let ghost av = ann@;
        let s = crate::snippets::snippet(source.as_str(), n.start_line, &self.origin, true, crate::lints::vec1(ann));
        assert(s@.annotations =~= seq![av]);
        s
    }
}

} // verus!
