//! A line that starts with `#` marks but no space is not a heading.

use vstd::prelude::*;

use crate::lints::markdown::node_in_source;
use crate::lints::{lint_message, new_message, result_view, vec1, Context, Error};
use crate::pattern::{compile, find, regex_compiles, regex_error, regex_first, Pattern};
use crate::snippets::{span_utf8, span_utf8_spec, AnnotationView, Message, MessageView, Snippet, SnippetView};
use crate::text::blen;
use crate::tree::{Node, NodeKind};

verus! {

/// Text at the start of a line that begins with one to six `#` marks
/// (and so lacks the space that would make it a heading).
#[derive(Debug, Clone, Copy)]
pub struct HeadingsSpace;

/// The pattern of the `#` marks at the start of a text.
pub open spec fn marks_pattern() -> Seq<char> {
    "^#{1,6}"@
}

/// Where the annotation of a text starts: on the last `#` mark, the byte
/// before the end of the match (or at 0 for an empty match).
pub open spec fn mark_start(end: int) -> int {
    if end >= 1 { end - 1 } else { 0 }
}

/// The snippet for a node, if it is text in the first column whose start
/// matches the pattern: the text, marking the last `#`.
pub open spec fn space_snippet(ctx: &Context, n: Node) -> Option<SnippetView> {
    match n.value {
        NodeKind::Text(text) => if n.start_column != 1 {
            None
        } else {
            match regex_first(marks_pattern(), text@) {
                None => None,
                Some(c) => Some(
                    SnippetView {
                        source: text@,
                        line_start: n.start_line as int,
                        origin: ctx.origin_view(),
                        fold: false,
                        annotations: seq![
                            AnnotationView {
                                label: Some("space required here"@),
                                ..span_utf8_spec(ctx.annotation_level, text@, mark_start(c.end), 1)
                            },
                        ],
                    },
                ),
            }
        },
        _ => None,
    }
}

/// The snippets for the first `k` nodes, in order.
pub open spec fn space_snippets(ctx: &Context, k: int) -> Seq<SnippetView>
    decreases k,
{
    if k <= 0 {
        seq![]
    } else {
        let prev = space_snippets(ctx, k - 1);
        match space_snippet(ctx, ctx.body@[k - 1]) {
            Some(s) => prev.push(s),
            None => prev,
        }
    }
}

impl HeadingsSpace {
    /// An error when the pattern does not compile; otherwise, when some
    /// text lacks the space, one message with a snippet for each such text.
    pub open spec fn spec_lint(&self, slug: Seq<char>, ctx: &Context) -> Result<Seq<MessageView>, Seq<char>> {
        if !regex_compiles(marks_pattern()) {
            Err(regex_error(marks_pattern()))
        } else {
            let snips = space_snippets(ctx, ctx.body@.len() as int);
            if snips.len() == 0 {
                Ok(seq![])
            } else {
                Ok(seq![lint_message(ctx.annotation_level, slug, "Space missing in header"@, snips, seq![])])
            }
        }
    }

    pub fn lint(&self, slug: &str, ctx: &Context) -> (r: Result<Vec<Message>, Error>)
        requires
            ctx.body_wf(),
        ensures
            result_view(r) == self.spec_lint(slug@, ctx),
    {
        proof {
            reveal_strlit("^#{1,6}");
        }
        let re = match compile("^#{1,6}") {
            Ok(re) => re,
            Err(message) => return Err(Error::Custom { message }),
        };
        let mut snips: Vec<Snippet> = Vec::new();
        let mut i: usize = 0;
        while i < ctx.body.len()
            invariant
                ctx.body_wf(),
                re@ == marks_pattern(),
                i <= ctx.body@.len(),
                snips@.map_values(|s: Snippet| s@) == space_snippets(ctx, i as int),
            decreases ctx.body@.len() - i,
        {
            assert(node_in_source(ctx, ctx.body@[i as int]));
            match snippet_for(ctx, &re, &ctx.body[i]) {
                Some(s) => {
                    let ghost before = snips@.map_values(|s: Snippet| s@);
                    snips.push(s);
                    assert(snips@.map_values(|s: Snippet| s@) =~= before.push(s@));
                },
                None => {},
            }
            i += 1;
        }
        if snips.len() == 0 {
            return Ok(crate::lints::no_messages());
        }
        let m = new_message(ctx.annotation_level(), slug, String::from_str("Space missing in header"), snips, Vec::new());
        proof {
            reveal_strlit("Space missing in header");
            assert(m@.footers =~= seq![]);
        }
        let r = vec1(m);
        assert(r@.map_values(|m: Message| m@) =~= seq![m@]);
        Ok(r)
    }
}

/// The snippet for one node.
fn snippet_for(ctx: &Context, re: &Pattern, n: &Node) -> (r: Option<Snippet>)
    requires
        re@ == marks_pattern(),
        node_in_source(ctx, *n),
    ensures
        match r {
            Some(s) => space_snippet(ctx, *n) == Some(s@),
            None => space_snippet(ctx, *n) is None,
        },
{
    if let NodeKind::Text(text) = &n.value {
        if n.start_column != 1 {
            return None;
        }
        let c = match find(re, text.as_str()) {
            Some(c) => c,
            None => return None,
        };
        proof {
            let (i, j) = choose|i: int, j: int|
                0 <= i <= j <= text@.len() && #[trigger] blen(text@.take(i)) == c.start
                    && #[trigger] blen(text@.take(j)) == c.end && c.text@ == text@.subrange(i, j);
            crate::text::lemma_blen_take_mono(text@, j, text@.len() as int);
            assert(text@.take(text@.len() as int) =~= text@);
        }
        let start = if c.end >= 1 { c.end - 1 } else { 0 };
        let ann = span_utf8(ctx.annotation_level(), text.as_str(), start, 1, Some(String::from_str("space required here")));
        let ghost av = ann@;
        let s = crate::snippets::snippet(text.as_str(), n.start_line, ctx.origin(), false, vec1(ann));
        proof {
            reveal_strlit("space required here");
            assert(s@.annotations =~= seq![av]);
        }
        Some(s)
    } else {
        None
    }
}

/// The snippets for the first `k` nodes are, in order, those of the nodes
/// that are text in the first column starting with `#` marks.
proof fn lemma_space_snippets_filter(ctx: &Context, k: int)
    requires
        0 <= k <= ctx.body@.len(),
    ensures
        space_snippets(ctx, k) == Seq::new(k as nat, |i: int| i).filter(
            |i: int| space_snippet(ctx, ctx.body@[i]) is Some,
        ).map_values(|i: int| space_snippet(ctx, ctx.body@[i])->0),
    decreases k,
{
    reveal(Seq::filter);
    let pred = |i: int| space_snippet(ctx, ctx.body@[i]) is Some;
    let snip = |i: int| space_snippet(ctx, ctx.body@[i])->0;
    let t = Seq::new(k as nat, |i: int| i);
    if k > 0 {
        lemma_space_snippets_filter(ctx, k - 1);
        assert(t.drop_last() =~= Seq::new((k - 1) as nat, |i: int| i));
        assert(t.last() == k - 1);
        let sub = t.drop_last().filter(pred);
        assert(t.filter(pred) == if pred(t.last()) {
            sub.push(t.last())
        } else {
            sub
        });
        assert(sub.push(t.last()).map_values(snip) =~= sub.map_values(snip).push(snip(t.last())));
    } else {
        assert(t =~= Seq::<int>::empty());
        assert(t.filter(pred) =~= Seq::<int>::empty());
        assert(t.filter(pred).map_values(snip) =~= Seq::<SnippetView>::empty());
    }
}

/// Once the pattern compiles, the lint raises a message exactly when some
/// text in the first column starts with `#` marks, and its snippets are
/// those of every such text, wherever it stands, in document order.
pub proof fn law_headings_space_exact(lint: HeadingsSpace, slug: Seq<char>, ctx: &Context)
    ensures
        ({
            let b = ctx.body@;
            let snips = Seq::new(b.len(), |i: int| i).filter(|i: int| space_snippet(ctx, b[i]) is Some).map_values(
                |i: int| space_snippet(ctx, b[i])->0,
            );
            regex_compiles(marks_pattern()) ==> lint.spec_lint(slug, ctx) == Ok::<Seq<MessageView>, Seq<char>>(
                if snips.len() == 0 {
                    seq![]
                } else {
                    seq![lint_message(ctx.annotation_level, slug, "Space missing in header"@, snips, seq![])]
                },
            )
        }),
{
    lemma_space_snippets_filter(ctx, ctx.body@.len() as int);
}

} // verus!
