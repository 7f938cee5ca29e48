//! Text of the body that must not match a pattern.

use vstd::prelude::*;

use crate::lints::markdown::source_for_text_spec;
use crate::lints::{lint_message, new_message, result_view, vec1, Context, Error};
use crate::pattern::{compile, is_match, regex_compiles, regex_error, regex_matches};
use crate::snippets::{footer, FooterView, Level, Message, MessageView, SnippetView};
use crate::text::concat3;
use crate::tree::{Node, NodeKind};

verus! {

/// How the pattern applies.
#[derive(Debug, Clone, Copy, PartialEq, Eq, Structural)]
pub enum Mode {
    /// No text node (nor link or image title, nor footnote name) may
    /// contain the pattern.
    Excludes,
}

/// Text of the body must not match `pattern`; `message` is the title of
/// the message otherwise.
#[derive(Debug, Clone)]
pub struct MarkdownRegex {
    pub mode: Mode,
    pub pattern: String,
    pub message: String,
}

/// The text of a node that the pattern is checked against, if any.
pub open spec fn checked_text(n: Node) -> Option<Seq<char>> {
    match n.value {
        NodeKind::Text(t) => Some(t@),
        NodeKind::FootnoteDefinition(t) => Some(t@),
        NodeKind::FootnoteReference(t) => Some(t@),
        NodeKind::Link { title, .. } => Some(title@),
        NodeKind::Image { title, .. } => Some(title@),
        _ => None,
    }
}

impl MarkdownRegex {
    /// The messages for the first `k` nodes whose checked text matches.
    pub open spec fn matches_upto(&self, ctx: &Context, slug: Seq<char>, k: int) -> Seq<MessageView>
        decreases k,
    {
        if k <= 0 {
            seq![]
        } else {
            let prev = self.matches_upto(ctx, slug, k - 1);
            let n = ctx.body@[k - 1];
            match checked_text(n) {
                Some(t) => if regex_matches(self.pattern@, t) {
                    prev.push(
                        lint_message(
                            ctx.annotation_level,
                            slug,
                            self.message@,
                            seq![
                                SnippetView {
                                    source: source_for_text_spec(ctx, n.start_line as int, t),
                                    line_start: n.start_line as int,
                                    origin: ctx.origin_view(),
                                    fold: false,
                                    annotations: seq![],
                                },
                            ],
                            seq![FooterView { level: Level::Info, title: "the pattern in question: `"@ + self.pattern@ + "`"@ }],
                        ),
                    )
                } else {
                    prev
                },
                None => prev,
            }
        }
    }

    /// An error when the pattern does not compile; otherwise one message
    /// for each text, link or image title, or footnote name that matches
    /// it, in order, showing the lines the text spans.
    pub open spec fn spec_lint(&self, slug: Seq<char>, ctx: &Context) -> Result<Seq<MessageView>, Seq<char>> {
        if !regex_compiles(self.pattern@) {
            Err(regex_error(self.pattern@))
        } else {
            Ok(self.matches_upto(ctx, slug, ctx.body@.len() as int))
        }
    }

    pub fn lint(&self, slug: &str, ctx: &Context) -> (r: Result<Vec<Message>, Error>)
        requires
            ctx.body_wf(),
        ensures
            result_view(r) == self.spec_lint(slug@, ctx),
    {
        let re = match compile(self.pattern.as_str()) {
            Ok(re) => re,
            Err(message) => return Err(Error::Custom { message }),
        };
        let mut msgs: Vec<Message> = Vec::new();
        let mut i: usize = 0;
        while i < ctx.body.len()
            invariant
                ctx.body_wf(),
                re@ == self.pattern@,
                i <= ctx.body@.len(),
                msgs@.map_values(|m: Message| m@) == self.matches_upto(ctx, slug@, i as int),
            decreases ctx.body@.len() - i,
        {
            let n = &ctx.body[i];
            let text: Option<&str> = match &n.value {
                NodeKind::Text(t) => Some(t.as_str()),
                NodeKind::FootnoteDefinition(t) => Some(t.as_str()),
                NodeKind::FootnoteReference(t) => Some(t.as_str()),
                NodeKind::Link { title, .. } => Some(title.as_str()),
                NodeKind::Image { title, .. } => Some(title.as_str()),
                _ => None,
            };
            let ghost before = msgs@.map_values(|m: Message| m@);
            if let Some(t) = text {
                if is_match(&re, t) && n.start_line >= 1 {
                    let source = ctx.source_for_text(n.start_line, t);
                    let snip = crate::snippets::snippet(source.as_str(), n.start_line, ctx.origin(), false, Vec::new());
                    let ghost sv = snip@;
                    let foot = footer(Level::Info, concat3("the pattern in question: `", self.pattern.as_str(), "`"));
                    let ghost fv = foot@;
                    let m = new_message(ctx.annotation_level(), slug, self.message.clone(), vec1(snip), vec1(foot));
                    proof {
                        reveal_strlit("the pattern in question: `");
                        reveal_strlit("`");
                        assert(sv.annotations =~= seq![]);
                        assert(m@.snippets =~= seq![sv]);
                        assert(m@.footers =~= seq![fv]);
                    }
                    msgs.push(m);
                    assert(msgs@.map_values(|m: Message| m@) =~= before.push(m@));
                } else {
                    proof {
                        crate::lints::markdown::lemma_node_line(ctx, i as int);
                    }
                }
            }
            i += 1;
        }
        Ok(msgs)
    }
}

impl MarkdownRegex {
    /// Node `i` of the body has checked text that matches the pattern.
    pub open spec fn node_matches(&self, ctx: &Context, i: int) -> bool {
        checked_text(ctx.body@[i]) is Some && regex_matches(self.pattern@, checked_text(ctx.body@[i])->0)
    }

    /// The message for node `n`, whose checked text `t` matches.
    pub open spec fn match_message(&self, ctx: &Context, slug: Seq<char>, n: Node, t: Seq<char>) -> MessageView {
        lint_message(
            ctx.annotation_level,
            slug,
            self.message@,
            seq![
                SnippetView {
                    source: source_for_text_spec(ctx, n.start_line as int, t),
                    line_start: n.start_line as int,
                    origin: ctx.origin_view(),
                    fold: false,
                    annotations: seq![],
                },
            ],
            seq![FooterView { level: Level::Info, title: "the pattern in question: `"@ + self.pattern@ + "`"@ }],
        )
    }

    /// The messages for the first `k` nodes are, in order, those of the
    /// nodes whose checked text matches.
    proof fn lemma_matches_filter(&self, ctx: &Context, slug: Seq<char>, k: int)
        requires
            0 <= k <= ctx.body@.len(),
        ensures
            self.matches_upto(ctx, slug, k) == Seq::new(k as nat, |i: int| i).filter(
                |i: int| self.node_matches(ctx, i),
            ).map_values(|i: int| self.match_message(ctx, slug, ctx.body@[i], checked_text(ctx.body@[i])->0)),
        decreases k,
    {
        reveal(Seq::filter);
        let pred = |i: int| self.node_matches(ctx, i);
        let msg = |i: int| self.match_message(ctx, slug, ctx.body@[i], checked_text(ctx.body@[i])->0);
        let t = Seq::new(k as nat, |i: int| i);
        if k > 0 {
            self.lemma_matches_filter(ctx, slug, k - 1);
            assert(t.drop_last() =~= Seq::new((k - 1) as nat, |i: int| i));
            assert(t.last() == k - 1);
            let sub = t.drop_last().filter(pred);
            assert(t.filter(pred) == if pred(t.last()) {
                sub.push(t.last())
            } else {
                sub
            });
            assert(sub.push(t.last()).map_values(msg) =~= sub.map_values(msg).push(msg(t.last())));
        } else {
            assert(t =~= Seq::<int>::empty());
            assert(t.filter(pred) =~= Seq::<int>::empty());
            assert(t.filter(pred).map_values(msg) =~= Seq::<MessageView>::empty());
        }
    }
}

/// Once the pattern compiles, the lint raises, in document order, exactly
/// one message for each text, link or image title, or footnote name that
/// matches it, wherever it stands, and no other.
pub proof fn law_markdown_regex_exact(lint: MarkdownRegex, slug: Seq<char>, ctx: &Context)
    ensures
        regex_compiles(lint.pattern@) ==> lint.spec_lint(slug, ctx) == Ok::<Seq<MessageView>, Seq<char>>(
            Seq::new(ctx.body@.len(), |i: int| i).filter(|i: int| lint.node_matches(ctx, i)).map_values(
                |i: int| lint.match_message(ctx, slug, ctx.body@[i], checked_text(ctx.body@[i])->0),
            ),
        ),
{
    lint.lemma_matches_filter(ctx, slug, ctx.body@.len() as int);
}

} // verus!
