//! HTML comments in the body.

use vstd::prelude::*;

use crate::lints::markdown::{ast_snippet_spec, node_in_source};
use crate::lints::preamble::order::strs_view;
use crate::lints::{get_field, join, join_strings, lint_message, new_message, no_messages, strings_view, vec1, Context};
use crate::preamble::find_field;
use crate::snippets::{Level, Message, MessageView, Snippet, SnippetView};
use crate::text::{chars_eq, chars_of, concat3, concat5, string_of, trim, trim_str};
use crate::tree::{Node, NodeKind};

verus! {

/// What `scraper::Html::parse_fragment` makes of an HTML text: for each
/// node of the tree, in order, whether it is a comment.
pub uninterp spec fn html_comment_flags(html: Seq<char>) -> Seq<bool>;

/// Parses an HTML fragment with `scraper` and tells, for each node of the
/// tree in order, whether it is a comment (`scraper::Node::is_comment`).
#[verifier::external_body]
fn comment_flags(html: &str) -> (r: Vec<bool>)
    ensures
        r@ == html_comment_flags(html@),
{
    scraper::Html::parse_fragment(html).tree.nodes().map(|n| n.value().is_comment()).collect()
}

/// The number of `true` among the first `k` flags.
pub open spec fn count_true(f: Seq<bool>, k: int) -> nat
    decreases k,
{
    if k <= 0 {
        0
    } else {
        count_true(f, k - 1) + if f[k - 1] { 1nat } else { 0nat }
    }
}

/// `n` copies of `x`.
pub open spec fn repeat(x: SnippetView, n: nat) -> Seq<SnippetView> {
    Seq::new(n, |i: int| x)
}

/// HTML comments are not allowed, except (as warnings) while the named
/// header has one of the `warn_for` values.
#[derive(Debug, Clone)]
pub struct HtmlComments {
    pub name: String,
    pub warn_for: Vec<String>,
}

impl HtmlComments {
    /// The snippets for the first `k` nodes: one per comment in each HTML
    /// block.
    pub open spec fn snippets_upto(&self, ctx: &Context, level: Level, k: int) -> Seq<SnippetView>
        decreases k,
    {
        if k <= 0 {
            seq![]
        } else {
            let prev = self.snippets_upto(ctx, level, k - 1);
            let n = ctx.body@[k - 1];
            match n.value {
                NodeKind::HtmlBlock(lit) => {
                    let flags = html_comment_flags(lit@);
                    prev + repeat(ast_snippet_spec(ctx, n, level, None), count_true(flags, flags.len() as int))
                },
                _ => prev,
            }
        }
    }

    /// The level of the message: a warning instead of an error while the
    /// header's trimmed value is one of `warn_for`.
    pub open spec fn level_for(&self, ctx: &Context, value: Seq<char>) -> Level {
        if strings_view(self.warn_for@).contains(value) && ctx.annotation_level == Level::Error {
            Level::Warning
        } else {
            ctx.annotation_level
        }
    }

    /// When the header is present and the body holds HTML comments: one
    /// message marking each comment's block (once per comment).
    pub open spec fn spec_lint(&self, slug: Seq<char>, ctx: &Context) -> Seq<MessageView> {
        match find_field(ctx.preamble@, self.name@) {
            None => seq![],
            Some(f) => {
                let value = trim(f.value);
                let level = self.level_for(ctx, value);
                let snippets = self.snippets_upto(ctx, level, ctx.body@.len() as int);
                if snippets.len() == 0 {
                    seq![]
                } else {
                    let title = if strings_view(self.warn_for@).contains(value) {
                        "HTML comments are only allowed while `"@ + self.name@ + "` is one of: `"@ + join(
                            strings_view(self.warn_for@),
                            "`, `"@,
                        ) + "`"@
                    } else {
                        "HTML comments are not allowed when `"@ + self.name@ + "` is `"@ + value + "`"@
                    };
                    seq![lint_message(level, slug, title, snippets, seq![])]
                }
            },
        }
    }

    pub fn lint(&self, slug: &str, ctx: &Context) -> (r: Vec<Message>)
        requires
            ctx.wf(),
            ctx.body_wf(),
        ensures
            r@.map_values(|m: Message| m@) == self.spec_lint(slug@, ctx),
    {
        let field = match get_field(ctx, self.name.as_str()) {
            None => return no_messages(),
            Some(f) => f,
        };
        let value = string_of(trim_str(field.value()).as_slice());
        let mut warn = false;
        let mut i: usize = 0;
        while i < self.warn_for.len()
            invariant
                i <= self.warn_for@.len(),
                warn <==> exists|k: int| 0 <= k < i && self.warn_for@[k]@ == value@,
            decreases self.warn_for@.len() - i,
        {
            if crate::text::str_eq(self.warn_for[i].as_str(), value.as_str()) {
                warn = true;
            }
            i += 1;
        }
        proof {
            let w = strings_view(self.warn_for@);
            if warn {
                let k = choose|k: int| 0 <= k < self.warn_for@.len() && self.warn_for@[k]@ == value@;
                assert(w[k] == value@);
            } else {
                assert forall|k: int| 0 <= k < w.len() implies w[k] != value@ by {
                    assert(w[k] == self.warn_for@[k]@);
                }
            }
        }
        let level = if warn && ctx.annotation_level() == Level::Error { Level::Warning } else { ctx.annotation_level() };
        let mut snippets: Vec<Snippet> = Vec::new();
        let mut j: usize = 0;
        while j < ctx.body.len()
            invariant
                ctx.body_wf(),
                j <= ctx.body@.len(),
                snippets@.map_values(|s: Snippet| s@) == self.snippets_upto(ctx, level, j as int),
            decreases ctx.body@.len() - j,
        {
            let n = &ctx.body[j];
            if let NodeKind::HtmlBlock(lit) = &n.value {
                let flags = comment_flags(lit.as_str());
                assert(node_in_source(ctx, ctx.body@[j as int]));
                let ghost base = snippets@.map_values(|s: Snippet| s@);
                let ghost one = ast_snippet_spec(ctx, *n, level, None);
                let mut c: usize = 0;
                while c < flags.len()
                    invariant
                        ctx.body_wf(),
                        node_in_source(ctx, *n),
                        one == ast_snippet_spec(ctx, *n, level, None),
                        c <= flags@.len(),
                        snippets@.map_values(|s: Snippet| s@) == base + repeat(one, count_true(flags@, c as int)),
                    decreases flags@.len() - c,
                {
                    if flags[c] {
                        let s = ctx.ast_snippet(n, Some(level), None);
                        assert(s@ == one);
                        assert(count_true(flags@, c + 1) == count_true(flags@, c as int) + 1);
                        let ghost before = snippets@.map_values(|s: Snippet| s@);
                        snippets.push(s);
                        assert(snippets@.map_values(|s: Snippet| s@) =~= before.push(s@));
                        assert(base + repeat(one, count_true(flags@, c + 1)) =~= (base + repeat(one, count_true(flags@, c as int))).push(one));
                    } else {
                        assert(count_true(flags@, c + 1) == count_true(flags@, c as int));
                    }
                    c += 1;
                }
            }
            j += 1;
        }
        if snippets.len() == 0 {
            let r = no_messages();
            assert(r@.map_values(|m: Message| m@) =~= self.spec_lint(slug@, ctx));
            return r;
        }
        let title = if warn {
            let joined = join_strings(&self.warn_for, "`, `");
            let t = concat5("HTML comments are only allowed while `", self.name.as_str(), "` is one of: `", joined.as_str(), "`");
            t
        } else {
            concat5("HTML comments are not allowed when `", self.name.as_str(), "` is `", value.as_str(), "`")
        };
        let m = new_message(level, slug, title, snippets, Vec::new());
        let r = vec1(m);
        proof {
            reveal_strlit("HTML comments are only allowed while `");
            reveal_strlit("` is one of: `");
            reveal_strlit("`, `");
            reveal_strlit("`");
            reveal_strlit("HTML comments are not allowed when `");
            reveal_strlit("` is `");
            assert(m@.footers =~= seq![]);
            assert(r@.map_values(|m: Message| m@) =~= self.spec_lint(slug@, ctx));
        }
        r
    }
}

impl HtmlComments {
    /// The snippets for node `n`: one per comment when it is an HTML block.
    pub open spec fn node_snippets(&self, ctx: &Context, level: Level, n: Node) -> Seq<SnippetView> {
        match n.value {
            NodeKind::HtmlBlock(lit) => {
                let flags = html_comment_flags(lit@);
                repeat(ast_snippet_spec(ctx, n, level, None), count_true(flags, flags.len() as int))
            },
            _ => seq![],
        }
    }

    /// The snippets for the first `k` nodes are those of each node in turn.
    proof fn lemma_snippets_flatten(&self, ctx: &Context, level: Level, k: int)
        requires
            0 <= k <= ctx.body@.len(),
        ensures
            self.snippets_upto(ctx, level, k) == Seq::new(k as nat, |i: int| self.node_snippets(ctx, level, ctx.body@[i])).flatten(),
        decreases k,
    {
        let parts = Seq::new(k as nat, |i: int| self.node_snippets(ctx, level, ctx.body@[i]));
        parts.lemma_flatten_and_flatten_alt_are_equivalent();
        if k > 0 {
            self.lemma_snippets_flatten(ctx, level, k - 1);
            let prev = Seq::new((k - 1) as nat, |i: int| self.node_snippets(ctx, level, ctx.body@[i]));
            prev.lemma_flatten_and_flatten_alt_are_equivalent();
            assert(parts.drop_last() =~= prev);
            if !(ctx.body@[k - 1].value is HtmlBlock) {
                assert(self.snippets_upto(ctx, level, k) =~= self.snippets_upto(ctx, level, k - 1) + seq![]);
            }
        } else {
            assert(parts =~= Seq::<Seq<SnippetView>>::empty());
        }
    }
}

/// With the header present, the lint raises a message exactly when some HTML
/// block of the body, wherever it stands, holds a comment, and its snippets
/// mark each HTML block once per comment it holds, node by node in document
/// order; a proposal without the header draws nothing.
pub proof fn law_html_comments_exact(lint: HtmlComments, slug: Seq<char>, ctx: &Context)
    ensures
        match find_field(ctx.preamble@, lint.name@) {
            None => lint.spec_lint(slug, ctx).len() == 0,
            Some(f) => {
                let level = lint.level_for(ctx, trim(f.value));
                let snippets = Seq::new(ctx.body@.len(), |i: int| lint.node_snippets(ctx, level, ctx.body@[i])).flatten();
                let r = lint.spec_lint(slug, ctx);
                &&& r.len() == (if snippets.len() == 0 { 0int } else { 1int })
                &&& snippets.len() > 0 ==> r[0].snippets == snippets
            },
        },
{
    if let Some(f) = find_field(ctx.preamble@, lint.name@) {
        let level = lint.level_for(ctx, trim(f.value));
        lint.lemma_snippets_flatten(ctx, level, ctx.body@.len() as int);
    }
}

} // verus!
