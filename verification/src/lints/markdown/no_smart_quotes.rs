//! Curly ("smart") quotes are not allowed.

use vstd::prelude::*;

use crate::lints::markdown::{node_in_source, source_for_text_spec};
use crate::lints::{lint_message, new_message, result_view, vec1, Context, Error};
use crate::pattern::{compile, is_match, regex_compiles, regex_error, regex_matches, Pattern};
use crate::snippets::{footer, FooterView, Level, Message, MessageView, SnippetView};
use crate::tree::{Node, NodeKind};

verus! {

/// Curly quotes must not appear in text, code, footnote names, or the
/// titles of links and images.
#[derive(Debug, Clone, Copy)]
pub struct NoSmartQuotes;

/// The pattern of a curly quote, double or single.
pub open spec fn smart_quotes_pattern() -> Seq<char> {
    "[\u{201C}\u{201D}]|[\u{2018}\u{2019}]"@
}

/// The text the lint checks in a node, if any.
pub open spec fn quoted_text(n: Node) -> Option<Seq<char>> {
    match n.value {
        NodeKind::Text(t) => Some(t@),
        NodeKind::Code(t) => Some(t@),
        NodeKind::CodeBlock { info, literal } => Some(literal@),
        NodeKind::FootnoteDefinition(name) => Some(name@),
        NodeKind::FootnoteReference(name) => Some(name@),
        NodeKind::Link { url, title } => Some(title@),
        NodeKind::Image { url, title } => Some(title@),
        _ => None,
    }
}

/// The message for a node whose text `t` holds a curly quote: it shows
/// the lines the text spans.
pub open spec fn quote_message(ctx: &Context, slug: Seq<char>, n: Node, t: Seq<char>) -> MessageView {
    lint_message(
        ctx.annotation_level,
        slug,
        "smart quotes are not allowed (use straight quotes instead)"@,
        seq![
            SnippetView {
                source: source_for_text_spec(ctx, n.start_line as int, t),
                line_start: n.start_line as int,
                origin: ctx.origin_view(),
                fold: false,
                annotations: seq![],
            },
        ],
        seq![FooterView { level: Level::Info, title: "Smart quotes detected: replace with straight quotes (\", ')"@ }],
    )
}

/// The messages for the first `k` nodes.
pub open spec fn quote_messages(ctx: &Context, slug: Seq<char>, k: int) -> Seq<MessageView>
    decreases k,
{
    if k <= 0 {
        seq![]
    } else {
        let prev = quote_messages(ctx, slug, k - 1);
        let n = ctx.body@[k - 1];
        match quoted_text(n) {
            Some(t) => if regex_matches(smart_quotes_pattern(), t) {
                prev.push(quote_message(ctx, slug, n, t))
            } else {
                prev
            },
            None => prev,
        }
    }
}

impl NoSmartQuotes {
    /// An error when the pattern does not compile; otherwise one message
    /// for each node whose text holds a curly quote, in order.
    pub open spec fn spec_lint(&self, slug: Seq<char>, ctx: &Context) -> Result<Seq<MessageView>, Seq<char>> {
        if !regex_compiles(smart_quotes_pattern()) {
            Err(regex_error(smart_quotes_pattern()))
        } else {
            Ok(quote_messages(ctx, slug, ctx.body@.len() as int))
        }
    }

    pub fn lint(&self, slug: &str, ctx: &Context) -> (r: Result<Vec<Message>, Error>)
        requires
            ctx.body_wf(),
        ensures
            result_view(r) == self.spec_lint(slug@, ctx),
    {
        proof {
            reveal_strlit("[\u{201C}\u{201D}]|[\u{2018}\u{2019}]");
        }
        let re = match compile("[\u{201C}\u{201D}]|[\u{2018}\u{2019}]") {
            Ok(re) => re,
            Err(message) => return Err(Error::Custom { message }),
        };
        let mut msgs: Vec<Message> = Vec::new();
        let mut i: usize = 0;
        while i < ctx.body.len()
            invariant
                ctx.body_wf(),
                re@ == smart_quotes_pattern(),
                i <= ctx.body@.len(),
                msgs@.map_values(|m: Message| m@) == quote_messages(ctx, slug@, i as int),
            decreases ctx.body@.len() - i,
        {
            let n = &ctx.body[i];
            assert(node_in_source(ctx, ctx.body@[i as int]));
            let text: Option<&String> = match &n.value {
                NodeKind::Text(t) => Some(t),
                NodeKind::Code(t) => Some(t),
                NodeKind::CodeBlock { info, literal } => Some(literal),
                NodeKind::FootnoteDefinition(name) => Some(name),
                NodeKind::FootnoteReference(name) => Some(name),
                NodeKind::Link { url, title } => Some(title),
                NodeKind::Image { url, title } => Some(title),
                _ => None,
            };
            assert(quoted_text(*n) == match text { Some(t) => Some(t@), None => None::<Seq<char>> });
            if let Some(t) = text {
                if is_match(&re, t.as_str()) {
                    let m = quote_message_of(slug, ctx, n, t.as_str());
                    let ghost before = msgs@.map_values(|m: Message| m@);
                    msgs.push(m);
                    assert(msgs@.map_values(|m: Message| m@) =~= before.push(m@));
                }
            }
            i += 1;
        }
        Ok(msgs)
    }
}

/// The message for a node whose text holds a curly quote.
fn quote_message_of(slug: &str, ctx: &Context, n: &Node, t: &str) -> (r: Message)
    requires
        node_in_source(ctx, *n),
    ensures
        r@ == quote_message(ctx, slug@, *n, t@),
{
    let source = ctx.source_for_text(n.start_line, t);
    let snip = crate::snippets::snippet(source.as_str(), n.start_line, ctx.origin(), false, Vec::new());
    assert(snip@.annotations =~= seq![]);
    let ghost sv = snip@;
    let foot = footer(Level::Info, String::from_str("Smart quotes detected: replace with straight quotes (\", ')"));
    let ghost fv = foot@;
    let m = new_message(
        ctx.annotation_level(),
        slug,
        String::from_str("smart quotes are not allowed (use straight quotes instead)"),
        vec1(snip),
        vec1(foot),
    );
    proof {
        reveal_strlit("smart quotes are not allowed (use straight quotes instead)");
        reveal_strlit("Smart quotes detected: replace with straight quotes (\", ')");
        assert(m@.snippets =~= seq![sv]);
        assert(m@.footers =~= seq![fv]);
    }
    m
}

/// Node `i` of the body has text that holds a curly quote.
pub open spec fn has_smart_quote(ctx: &Context, i: int) -> bool {
    quoted_text(ctx.body@[i]) is Some && regex_matches(smart_quotes_pattern(), quoted_text(ctx.body@[i])->0)
}

/// The messages for the first `k` nodes are, in order, those of the nodes
/// whose text holds a curly quote.
proof fn lemma_quote_messages_filter(ctx: &Context, slug: Seq<char>, k: int)
    requires
        0 <= k <= ctx.body@.len(),
    ensures
        quote_messages(ctx, slug, k) == Seq::new(k as nat, |i: int| i).filter(|i: int| has_smart_quote(ctx, i)).map_values(
            |i: int| quote_message(ctx, slug, ctx.body@[i], quoted_text(ctx.body@[i])->0),
        ),
    decreases k,
{
    reveal(Seq::filter);
    let pred = |i: int| has_smart_quote(ctx, i);
    let msg = |i: int| quote_message(ctx, slug, ctx.body@[i], quoted_text(ctx.body@[i])->0);
    let t = Seq::new(k as nat, |i: int| i);
    if k > 0 {
        lemma_quote_messages_filter(ctx, slug, k - 1);
        assert(t.drop_last() =~= Seq::new((k - 1) as nat, |i: int| i));
        assert(t.last() == k - 1);
        let sub = t.drop_last().filter(pred);
        assert(t.filter(pred) == if pred(t.last()) {
            sub.push(t.last())
        } else {
            sub
        });
        assert(sub.push(t.last()).map_values(msg) =~= sub.map_values(msg).push(msg(t.last())));
    } else {
        assert(t =~= Seq::<int>::empty());
        assert(t.filter(pred) =~= Seq::<int>::empty());
        assert(t.filter(pred).map_values(msg) =~= Seq::<MessageView>::empty());
    }
}

/// Once the pattern compiles, the lint raises, in document order, exactly
/// one message for each node whose text holds a curly quote, wherever it
/// stands, and no other.
pub proof fn law_no_smart_quotes_exact(lint: NoSmartQuotes, slug: Seq<char>, ctx: &Context)
    ensures
        regex_compiles(smart_quotes_pattern()) ==> lint.spec_lint(slug, ctx) == Ok::<Seq<MessageView>, Seq<char>>(
            Seq::new(ctx.body@.len(), |i: int| i).filter(|i: int| has_smart_quote(ctx, i)).map_values(
                |i: int| quote_message(ctx, slug, ctx.body@[i], quoted_text(ctx.body@[i])->0),
            ),
        ),
{
    lemma_quote_messages_filter(ctx, slug, ctx.body@.len() as int);
}

} // verus!
