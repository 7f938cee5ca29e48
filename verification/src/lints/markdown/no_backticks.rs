//! Proposal references must not be written as inline code.

use vstd::prelude::*;

use crate::lints::markdown::{ast_snippet_spec, node_in_source};
use crate::lints::{lint_message, new_message, result_view, vec1, Context, Error};
use crate::pattern::{compile, is_match, regex_compiles, regex_error, regex_matches};
use crate::snippets::{footer, FooterView, Level, Message, MessageView};
use crate::text::concat3;
use crate::tree::{Node, NodeKind};

verus! {

/// Inline code must not match the pattern (of a proposal reference).
#[derive(Debug, Clone)]
pub struct NoBackticks(pub String);

/// The messages for the inline code among the first `k` nodes that
/// matches `pattern`.
pub open spec fn backtick_messages(ctx: &Context, slug: Seq<char>, pattern: Seq<char>, k: int) -> Seq<MessageView>
    decreases k,
{
    if k <= 0 {
        seq![]
    } else {
        let prev = backtick_messages(ctx, slug, pattern, k - 1);
        let n = ctx.body@[k - 1];
        match n.value {
            NodeKind::Code(lit) => if regex_matches(pattern, lit@) {
                prev.push(
                    lint_message(
                        ctx.annotation_level,
                        slug,
                        "proposal references should not be in backticks"@,
                        seq![ast_snippet_spec(ctx, n, ctx.annotation_level, None)],
                        seq![FooterView { level: Level::Info, title: "the pattern in question: `"@ + pattern + "`"@ }],
                    ),
                )
            } else {
                prev
            },
            _ => prev,
        }
    }
}

impl NoBackticks {
    /// An error when the pattern does not compile; otherwise one message
    /// for each piece of inline code that matches it, in order.
    pub open spec fn spec_lint(&self, slug: Seq<char>, ctx: &Context) -> Result<Seq<MessageView>, Seq<char>> {
        if !regex_compiles(self.0@) {
            Err(regex_error(self.0@))
        } else {
            Ok(backtick_messages(ctx, slug, self.0@, ctx.body@.len() as int))
        }
    }

    pub fn lint(&self, slug: &str, ctx: &Context) -> (r: Result<Vec<Message>, Error>)
        requires
            ctx.body_wf(),
        ensures
            result_view(r) == self.spec_lint(slug@, ctx),
    {
        let re = match compile(self.0.as_str()) {
            Ok(re) => re,
            Err(message) => return Err(Error::Custom { message }),
        };
        let mut msgs: Vec<Message> = Vec::new();
        let mut i: usize = 0;
        while i < ctx.body.len()
            invariant
                ctx.body_wf(),
                re@ == self.0@,
                i <= ctx.body@.len(),
                msgs@.map_values(|m: Message| m@) == backtick_messages(ctx, slug@, self.0@, i as int),
            decreases ctx.body@.len() - i,
        {
            let n = &ctx.body[i];
            let ghost before = msgs@.map_values(|m: Message| m@);
            if let NodeKind::Code(lit) = &n.value {
                if is_match(&re, lit.as_str()) {
                    assert(node_in_source(ctx, ctx.body@[i as int]));
                    let snip = ctx.ast_snippet(n, None, None);
                    let ghost sv = snip@;
                    let foot = footer(Level::Info, concat3("the pattern in question: `", self.0.as_str(), "`"));
                    let ghost fv = foot@;
                    let m = new_message(
                        ctx.annotation_level(),
                        slug,
                        String::from_str("proposal references should not be in backticks"),
                        vec1(snip),
                        vec1(foot),
                    );
                    proof {
                        reveal_strlit("proposal references should not be in backticks");
                        reveal_strlit("the pattern in question: `");
                        reveal_strlit("`");
                        assert(m@.snippets =~= seq![sv]);
                        assert(m@.footers =~= seq![fv]);
                    }
                    msgs.push(m);
                    assert(msgs@.map_values(|m: Message| m@) =~= before.push(m@));
                }
            }
            i += 1;
        }
        Ok(msgs)
    }
}

/// Node `i` of the body is inline code that matches `pattern`.
pub open spec fn code_matches(ctx: &Context, pattern: Seq<char>, i: int) -> bool {
    ctx.body@[i].value matches NodeKind::Code(lit) && regex_matches(pattern, lit@)
}

/// The message for inline code node `n` that matches `pattern`.
pub open spec fn backtick_message(ctx: &Context, slug: Seq<char>, pattern: Seq<char>, n: Node) -> MessageView {
    lint_message(
        ctx.annotation_level,
        slug,
        "proposal references should not be in backticks"@,
        seq![ast_snippet_spec(ctx, n, ctx.annotation_level, None)],
        seq![FooterView { level: Level::Info, title: "the pattern in question: `"@ + pattern + "`"@ }],
    )
}

/// The messages for the first `k` nodes are, in order, those of the inline
/// code nodes that match.
proof fn lemma_backtick_messages_filter(ctx: &Context, slug: Seq<char>, pattern: Seq<char>, k: int)
    requires
        0 <= k <= ctx.body@.len(),
    ensures
        backtick_messages(ctx, slug, pattern, k) == Seq::new(k as nat, |i: int| i).filter(
            |i: int| code_matches(ctx, pattern, i),
        ).map_values(|i: int| backtick_message(ctx, slug, pattern, ctx.body@[i])),
    decreases k,
{
    reveal(Seq::filter);
    let pred = |i: int| code_matches(ctx, pattern, i);
    let msg = |i: int| backtick_message(ctx, slug, pattern, ctx.body@[i]);
    let t = Seq::new(k as nat, |i: int| i);
    if k > 0 {
        lemma_backtick_messages_filter(ctx, slug, pattern, k - 1);
        assert(t.drop_last() =~= Seq::new((k - 1) as nat, |i: int| i));
        assert(t.last() == k - 1);
        let sub = t.drop_last().filter(pred);
        assert(t.filter(pred) == if pred(t.last()) {
            sub.push(t.last())
        } else {
            sub
        });
        assert(sub.push(t.last()).map_values(msg) =~= sub.map_values(msg).push(msg(t.last())));
    } else {
        assert(t =~= Seq::<int>::empty());
        assert(t.filter(pred) =~= Seq::<int>::empty());
        assert(t.filter(pred).map_values(msg) =~= Seq::<MessageView>::empty());
    }
}

/// Once the pattern compiles, the lint raises, in document order, exactly
/// one message for each piece of inline code that matches it, wherever it
/// stands, and no other.
pub proof fn law_no_backticks_exact(lint: NoBackticks, slug: Seq<char>, ctx: &Context)
    ensures
        regex_compiles(lint.0@) ==> lint.spec_lint(slug, ctx) == Ok::<Seq<MessageView>, Seq<char>>(
            Seq::new(ctx.body@.len(), |i: int| i).filter(|i: int| code_matches(ctx, lint.0@, i)).map_values(
                |i: int| backtick_message(ctx, slug, lint.0@, ctx.body@[i]),
            ),
        ),
{
    lemma_backtick_messages_filter(ctx, slug, lint.0@, ctx.body@.len() as int);
}

} // verus!
