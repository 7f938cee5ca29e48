//! The markdown body of a proposal, as a list of nodes in document order
//! (a parent before its children), each with its depth in the tree; and
//! parsing a body into such nodes with `comrak`.

use vstd::prelude::*;

use crate::node_text::{debug_level, debug_literals, debug_name, first_level, literals, lits_view, name_length};
use crate::text::{chars_eq, chars_of, string_of};

verus! {

/// What a markdown node is, with the text the lints read from it.
#[derive(Debug)]
pub enum NodeKind {
    Document,
    FrontMatter(String),
    Paragraph,
    Heading(u8),
    Text(String),
    Code(String),
    CodeBlock { info: String, literal: String },
    HtmlBlock(String),
    HtmlInline(String),
    Link { url: String, title: String },
    Image { url: String, title: String },
    FootnoteDefinition(String),
    FootnoteReference(String),
    Emph,
    Strong,
    /// Any other kind of node.
    Other,
}

/// A node: its value, its depth (the document is at depth 0), and its
/// position in the proposal (lines and columns start at 1).
#[derive(Debug)]
pub struct Node {
    pub value: NodeKind,
    pub depth: usize,
    pub start_line: usize,
    pub start_column: usize,
    pub end_line: usize,
    pub end_column: usize,
}

/// Node `j` is an ancestor of node `i`: it comes before `i`, and every node
/// from just after `j` up to `i` is deeper than `j`.
pub open spec fn is_ancestor(b: Seq<Node>, j: int, i: int) -> bool {
    &&& 0 <= j < i < b.len()
    &&& forall|k: int| j < k <= i ==> #[trigger] b[k].depth > b[j].depth
}

/// Node `j` is a descendant of node `i`.
pub open spec fn is_descendant(b: Seq<Node>, i: int, j: int) -> bool {
    is_ancestor(b, i, j)
}

/// Some ancestor of node `i` is a link.
pub open spec fn in_link(b: Seq<Node>, i: int) -> bool {
    exists|j: int| #[trigger] is_ancestor(b, j, i) && b[j].value is Link
}

/// Some ancestor of node `i` is an image.
pub open spec fn in_image(b: Seq<Node>, i: int) -> bool {
    exists|j: int| #[trigger] is_ancestor(b, j, i) && b[j].value is Image
}

/// Whether node `i` lies under a link, and whether it lies under an image.
pub fn ancestry(b: &Vec<Node>, i: usize) -> (r: (bool, bool))
    requires
        i < b@.len(),
    ensures
        r.0 == in_link(b@, i as int),
        r.1 == in_image(b@, i as int),
{
    let mut link = false;
    let mut image = false;
    let mut m: usize = b[i].depth;
    let mut k: usize = i;
    while k > 0
        invariant
            0 <= k <= i < b@.len(),
            forall|t: int| k <= t <= i ==> b@[t].depth >= m,
            exists|t: int| k <= t <= i && b@[t].depth == m,
            link <==> exists|j: int| k <= j < i && #[trigger] is_ancestor(b@, j, i as int) && b@[j].value is Link,
            image <==> exists|j: int| k <= j < i && #[trigger] is_ancestor(b@, j, i as int) && b@[j].value is Image,
        decreases k,
    {
        let j = k - 1;
        let d = b[j].depth;
        proof {
            let w = choose|t: int| k <= t <= i && b@[t].depth == m;
            if is_ancestor(b@, j as int, i as int) {
                assert(b@[w].depth > b@[j as int].depth);
            }
            if d < m {
                assert forall|t: int| j < t <= i implies #[trigger] b@[t].depth > b@[j as int].depth by {}
                assert(is_ancestor(b@, j as int, i as int));
            }
        }
        if d < m {
            match &b[j].value {
                NodeKind::Link { .. } => link = true,
                NodeKind::Image { .. } => image = true,
                _ => {},
            }
            m = d;
        }
        k = j;
    }
    proof {
        assert forall|j: int| #[trigger] is_ancestor(b@, j, i as int) implies 0 <= j < i by {}
    }
    (link, image)
}

/// Whether node `j` is an ancestor of node `i`.
pub fn ancestor(b: &Vec<Node>, j: usize, i: usize) -> (r: bool)
    requires
        j < i < b@.len(),
    ensures
        r == is_ancestor(b@, j as int, i as int),
{
    let d = b[j].depth;
    let mut k: usize = j + 1;
    while k < i
        invariant
            j < k <= i,
            i < b@.len(),
            d == b@[j as int].depth,
            forall|t: int| j < t < k ==> #[trigger] b@[t].depth > d,
        decreases i - k,
    {
        if b[k].depth <= d {
            return false;
        }
        k += 1;
    }
    b[i].depth > d
}


/// What a node is, as plain text.
pub enum KindView {
    Document,
    FrontMatter(Seq<char>),
    Paragraph,
    Heading(u8),
    Text(Seq<char>),
    Code(Seq<char>),
    CodeBlock(Seq<char>, Seq<char>),
    HtmlBlock(Seq<char>),
    HtmlInline(Seq<char>),
    Link(Seq<char>, Seq<char>),
    Image(Seq<char>, Seq<char>),
    FootnoteDefinition(Seq<char>),
    FootnoteReference(Seq<char>),
    Emph,
    Strong,
    Other,
}

/// A node's value as plain text.
pub open spec fn kind_view(k: NodeKind) -> KindView {
    match k {
        NodeKind::Document => KindView::Document,
        NodeKind::FrontMatter(s) => KindView::FrontMatter(s@),
        NodeKind::Paragraph => KindView::Paragraph,
        NodeKind::Heading(l) => KindView::Heading(l),
        NodeKind::Text(s) => KindView::Text(s@),
        NodeKind::Code(s) => KindView::Code(s@),
        NodeKind::CodeBlock { info, literal } => KindView::CodeBlock(info@, literal@),
        NodeKind::HtmlBlock(s) => KindView::HtmlBlock(s@),
        NodeKind::HtmlInline(s) => KindView::HtmlInline(s@),
        NodeKind::Link { url, title } => KindView::Link(url@, title@),
        NodeKind::Image { url, title } => KindView::Image(url@, title@),
        NodeKind::FootnoteDefinition(s) => KindView::FootnoteDefinition(s@),
        NodeKind::FootnoteReference(s) => KindView::FootnoteReference(s@),
        NodeKind::Emph => KindView::Emph,
        NodeKind::Strong => KindView::Strong,
        NodeKind::Other => KindView::Other,
    }
}

/// The value a `comrak` node value's debug text (`{:?}`) describes: the
/// variant's name picks the kind, and its string fields (in order: a
/// code block's info then literal, a link's address then title) and a
/// heading's level give the rest; any other variant is `Other`.
pub open spec fn decoded(d: Seq<char>) -> KindView {
    let name = debug_name(d);
    let lits = debug_literals(d);
    if name == "Document"@ {
        KindView::Document
    } else if name == "Paragraph"@ {
        KindView::Paragraph
    } else if name == "Emph"@ {
        KindView::Emph
    } else if name == "Strong"@ {
        KindView::Strong
    } else if name == "Heading"@ && debug_level(d) is Some {
        KindView::Heading(debug_level(d)->0)
    } else if name == "FrontMatter"@ && lits.len() >= 1 {
        KindView::FrontMatter(lits[0])
    } else if name == "Text"@ && lits.len() >= 1 {
        KindView::Text(lits[0])
    } else if name == "Code"@ && lits.len() >= 1 {
        KindView::Code(lits[0])
    } else if name == "HtmlBlock"@ && lits.len() >= 1 {
        KindView::HtmlBlock(lits[0])
    } else if name == "HtmlInline"@ && lits.len() >= 1 {
        KindView::HtmlInline(lits[0])
    } else if name == "FootnoteDefinition"@ && lits.len() >= 1 {
        KindView::FootnoteDefinition(lits[0])
    } else if name == "FootnoteReference"@ && lits.len() >= 1 {
        KindView::FootnoteReference(lits[0])
    } else if name == "CodeBlock"@ && lits.len() >= 2 {
        KindView::CodeBlock(lits[0], lits[1])
    } else if name == "Link"@ && lits.len() >= 2 {
        KindView::Link(lits[0], lits[1])
    } else if name == "Image"@ && lits.len() >= 2 {
        KindView::Image(lits[0], lits[1])
    } else {
        KindView::Other
    }
}

/// Whether `name` is the text `t`.
fn is_name(name: &[char], t: &str) -> (r: bool)
    ensures
        r == (name@ == t@),
{
    let tc = chars_of(t);
    chars_eq(name, tc.as_slice())
}

/// The node value that a `comrak` node value's debug text describes.
pub fn decode(d: &str) -> (r: NodeKind)
    ensures
        kind_view(r) == decoded(d@),
{
    let c = chars_of(d);
    let n = name_length(c.as_slice());
    let name = vstd::slice::slice_subrange(c.as_slice(), 0, n);
    assert(name@ =~= debug_name(d@));
    let lits = literals(c.as_slice());
    let level = first_level(c.as_slice());
    assert(c@ == d@);
    assert(level == debug_level(d@));
    assert(lits_view(lits@) == debug_literals(d@));
    assert(lits@.len() == debug_literals(d@).len());
    let one = lits.len() >= 1;
    let two = lits.len() >= 2;
    if is_name(name, "Document") {
        NodeKind::Document
    } else if is_name(name, "Paragraph") {
        NodeKind::Paragraph
    } else if is_name(name, "Emph") {
        NodeKind::Emph
    } else if is_name(name, "Strong") {
        NodeKind::Strong
    } else if is_name(name, "Heading") && level.is_some() {
        NodeKind::Heading(level.unwrap())
    } else if is_name(name, "FrontMatter") && one {
        NodeKind::FrontMatter(string_of(lits[0].as_slice()))
    } else if is_name(name, "Text") && one {
        NodeKind::Text(string_of(lits[0].as_slice()))
    } else if is_name(name, "Code") && one {
        NodeKind::Code(string_of(lits[0].as_slice()))
    } else if is_name(name, "HtmlBlock") && one {
        NodeKind::HtmlBlock(string_of(lits[0].as_slice()))
    } else if is_name(name, "HtmlInline") && one {
        NodeKind::HtmlInline(string_of(lits[0].as_slice()))
    } else if is_name(name, "FootnoteDefinition") && one {
        NodeKind::FootnoteDefinition(string_of(lits[0].as_slice()))
    } else if is_name(name, "FootnoteReference") && one {
        NodeKind::FootnoteReference(string_of(lits[0].as_slice()))
    } else if is_name(name, "CodeBlock") && two {
        NodeKind::CodeBlock { info: string_of(lits[0].as_slice()), literal: string_of(lits[1].as_slice()) }
    } else if is_name(name, "Link") && two {
        NodeKind::Link { url: string_of(lits[0].as_slice()), title: string_of(lits[1].as_slice()) }
    } else if is_name(name, "Image") && two {
        NodeKind::Image { url: string_of(lits[0].as_slice()), title: string_of(lits[1].as_slice()) }
    } else {
        NodeKind::Other
    }
}

/// What `comrak::parse_document` makes of a markdown body (with tables,
/// autolinks and footnotes): for each node in document order, the debug
/// text (`{:?}`, which `comrak` derives) of its value, its depth, and the
/// line and column where it starts and ends.
pub uninterp spec fn markdown_nodes(body: Seq<char>) -> Seq<(Seq<char>, nat, nat, nat, nat, nat)>;

/// The depth and position of a parsed node.
pub open spec fn raw_layout(r: (String, usize, usize, usize, usize, usize)) -> (nat, nat, nat, nat, nat) {
    (r.1 as nat, r.2 as nat, r.3 as nat, r.4 as nat, r.5 as nat)
}

/// The layout part of a named node.
pub open spec fn named_layout(n: (Seq<char>, nat, nat, nat, nat, nat)) -> (nat, nat, nat, nat, nat) {
    (n.1, n.2, n.3, n.4, n.5)
}

/// The depth and position of a node.
pub open spec fn node_layout(n: Node) -> (nat, nat, nat, nat, nat) {
    (n.depth as nat, n.start_line as nat, n.start_column as nat, n.end_line as nat, n.end_column as nat)
}

/// A node is what `comrak` gave for a node: the value its debug text
/// describes, at the same depth and position.
pub open spec fn node_is(n: Node, m: (Seq<char>, nat, nat, nat, nat, nat)) -> bool {
    node_layout(n) == named_layout(m) && kind_view(n.value) == decoded(m.0)
}

/// Parses a markdown body with `comrak::parse_document` (tables, autolinks
/// and footnotes on) and gives, for each node in document order
/// (`descendants`), the debug text of its value, its depth (`ancestors`)
/// and its position (`sourcepos`).
#[verifier::external_body]
fn md_parse(body: &str) -> (r: Vec<(String, usize, usize, usize, usize, usize)>)
    ensures
        r@.len() == markdown_nodes(body@).len(),
        forall|i: int|
            0 <= i < r@.len() ==> (#[trigger] r@[i]).0@ == markdown_nodes(body@)[i].0 && raw_layout(r@[i])
                == named_layout(markdown_nodes(body@)[i]),
{
    let arena = comrak::Arena::new();
    let mut o = comrak::Options::default();
    o.extension.table = true;
    o.extension.autolink = true;
    o.extension.footnotes = true;
    let mut r = Vec::new();
    for n in comrak::parse_document(&arena, body, &o).descendants() {
        let d = n.data.borrow();
        let p = d.sourcepos;
        r.push((format!("{:?}", d.value), n.ancestors().skip(1).count(), p.start.line, p.start.column, p.end.line, p.end.column));
    }
    r
}

/// The nodes of a markdown body in document order, each with its value,
/// depth and position in the body as `comrak` parses it.
pub fn parse_markdown(body: &str) -> (r: Vec<Node>)
    ensures
        r@.len() == markdown_nodes(body@).len(),
        forall|i: int| 0 <= i < r@.len() ==> node_is(#[trigger] r@[i], markdown_nodes(body@)[i]),
{
    let ghost named = markdown_nodes(body@);
    let raw = md_parse(body);
    let mut r: Vec<Node> = Vec::new();
    let mut i: usize = 0;
    while i < raw.len()
        invariant
            raw@.len() == named.len(),
            forall|k: int| 0 <= k < raw@.len() ==> (#[trigger] raw@[k]).0@ == named[k].0 && raw_layout(raw@[k]) == named_layout(named[k]),
            i <= raw@.len(),
            r@.len() == i,
            forall|k: int| 0 <= k < i ==> node_is(#[trigger] r@[k], named[k]),
        decreases raw@.len() - i,
    {
        let (text, depth, start_line, start_column, end_line, end_column) = &raw[i];
        let value = decode(text.as_str());
        assert(raw@[i as int].0@ == named[i as int].0);
        r.push(Node { value, depth: *depth, start_line: *start_line, start_column: *start_column, end_line: *end_line, end_column: *end_column });
        i += 1;
    }
    r
}

} // verus!
