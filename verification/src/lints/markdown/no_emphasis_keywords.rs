//! Uppercase keywords must not be emphasised.

use vstd::prelude::*;

use crate::lints::markdown::{ast_snippet_spec, node_in_source};
use crate::lints::{lint_message, new_message, result_view, vec1, Context, Error};
use crate::pattern::{compile, find, regex_compiles, regex_error, regex_first, Pattern};
use crate::snippets::{footer, FooterView, Level, Message, MessageView};
use crate::text::{concat3, concat5};
use crate::tree::{ancestor, is_ancestor, Node, NodeKind};

verus! {

/// Words of two or more uppercase letters must not appear in emphasised
/// (italic or bold) text.
#[derive(Debug, Clone, Copy)]
pub struct NoEmphasisKeywords;

/// The emphasis that text is under.
#[derive(Debug, Clone, Copy, PartialEq, Eq, Structural)]
pub enum EmphasisType {
    Unemphasised,
    Bold,
    Italic,
}

impl EmphasisType {
    pub open spec fn spec_description(&self) -> Seq<char> {
        match self {
            EmphasisType::Unemphasised => ""@,
            EmphasisType::Bold => "bold"@,
            EmphasisType::Italic => "italic"@,
        }
    }

    /// The word for the emphasis.
    pub fn description(&self) -> (r: &'static str)
        ensures
            r@ == self.spec_description(),
    {
        proof {
            reveal_strlit("");
            reveal_strlit("bold");
            reveal_strlit("italic");
        }
        match self {
            EmphasisType::Unemphasised => "",
            EmphasisType::Bold => "bold",
            EmphasisType::Italic => "italic",
        }
    }
}

/// The pattern of an uppercase keyword.
pub open spec fn keyword_pattern() -> Seq<char> {
    "\\b[A-Z]{2,}\\b"@
}

/// The last emphasis node (italic or bold) among the first `k` nodes.
pub open spec fn last_emphasis(b: Seq<Node>, k: int) -> Option<int>
    decreases k,
{
    if k <= 0 {
        None
    } else if b[k - 1].value is Emph || b[k - 1].value is Strong {
        Some(k - 1)
    } else {
        last_emphasis(b, k - 1)
    }
}

/// The emphasis that node `i` is under: that of the last emphasis node
/// before it, while the walk is still inside that node; none once the walk
/// has left it (leaving an emphasis clears it, even inside another).
pub open spec fn emphasis_at(b: Seq<Node>, i: int) -> EmphasisType {
    match last_emphasis(b, i) {
        Some(j) => if is_ancestor(b, j, i) {
            if b[j].value is Emph {
                EmphasisType::Italic
            } else {
                EmphasisType::Bold
            }
        } else {
            EmphasisType::Unemphasised
        },
        None => EmphasisType::Unemphasised,
    }
}

/// The messages for the first `k` nodes: one for each emphasised text
/// with an uppercase keyword, naming the first.
pub open spec fn keyword_messages(ctx: &Context, slug: Seq<char>, k: int) -> Seq<MessageView>
    decreases k,
{
    if k <= 0 {
        seq![]
    } else {
        let prev = keyword_messages(ctx, slug, k - 1);
        let n = ctx.body@[k - 1];
        let e = emphasis_at(ctx.body@, k - 1);
        match n.value {
            NodeKind::Text(t) => if e == EmphasisType::Unemphasised {
                prev
            } else {
                match regex_first(keyword_pattern(), t@) {
                    None => prev,
                    Some(m) => prev.push(
                        lint_message(
                            ctx.annotation_level,
                            slug,
                            "uppercase keywords should not be formatted with "@ + e.spec_description() + " emphasis"@,
                            seq![ast_snippet_spec(ctx, n, ctx.annotation_level, None)],
                            seq![
                                FooterView {
                                    level: Level::Info,
                                    title: "uppercase keyword `"@ + m.text + "` found in "@ + e.spec_description() + " text"@,
                                },
                            ],
                        ),
                    ),
                }
            },
            _ => prev,
        }
    }
}

impl NoEmphasisKeywords {
    /// An error when the pattern does not compile; otherwise the messages
    /// for every emphasised text with an uppercase keyword, in order.
    pub open spec fn spec_lint(&self, slug: Seq<char>, ctx: &Context) -> Result<Seq<MessageView>, Seq<char>> {
        if !regex_compiles(keyword_pattern()) {
            Err(regex_error(keyword_pattern()))
        } else {
            Ok(keyword_messages(ctx, slug, ctx.body@.len() as int))
        }
    }

    pub fn lint(&self, slug: &str, ctx: &Context) -> (r: Result<Vec<Message>, Error>)
        requires
            ctx.body_wf(),
        ensures
            result_view(r) == self.spec_lint(slug@, ctx),
    {
        proof {
            reveal_strlit("\\b[A-Z]{2,}\\b");
        }
        let re = match compile("\\b[A-Z]{2,}\\b") {
            Ok(re) => re,
            Err(message) => return Err(Error::Custom { message }),
        };
        let mut msgs: Vec<Message> = Vec::new();
        let mut last: Option<usize> = None;
        let mut i: usize = 0;
        while i < ctx.body.len()
            invariant
                ctx.body_wf(),
                re@ == keyword_pattern(),
                i <= ctx.body@.len(),
                last_emphasis(ctx.body@, i as int) == match last { Some(j) => Some(j as int), None => None::<int> },
                msgs@.map_values(|m: Message| m@) == keyword_messages(ctx, slug@, i as int),
            decreases ctx.body@.len() - i,
        {
            let n = &ctx.body[i];
            assert(node_in_source(ctx, ctx.body@[i as int]));
            if let NodeKind::Text(t) = &n.value {
                let e = emphasis_of(&ctx.body, i, last);
                if e != EmphasisType::Unemphasised {
                    if let Some(m) = find(&re, t.as_str()) {
                        let msg = keyword_message(slug, ctx, n, e, m.text.as_str());
                        let ghost before = msgs@.map_values(|m: Message| m@);
                        msgs.push(msg);
                        assert(msgs@.map_values(|m: Message| m@) =~= before.push(msg@));
                    }
                }
            }
            match &n.value {
                NodeKind::Emph => last = Some(i),
                NodeKind::Strong => last = Some(i),
                _ => {},
            }
            i += 1;
        }
        Ok(msgs)
    }
}

/// The emphasis that node `i` is under, given the last emphasis node before
/// it.
fn emphasis_of(b: &Vec<Node>, i: usize, last: Option<usize>) -> (r: EmphasisType)
    requires
        i < b@.len(),
        last_emphasis(b@, i as int) == match last { Some(j) => Some(j as int), None => None::<int> },
    ensures
        r == emphasis_at(b@, i as int),
{
    proof {
        lemma_last_emphasis_before(b@, i as int);
    }
    match last {
        None => EmphasisType::Unemphasised,
        Some(j) => {
            if ancestor(b, j, i) {
                match &b[j].value {
                    NodeKind::Emph => EmphasisType::Italic,
                    _ => EmphasisType::Bold,
                }
            } else {
                EmphasisType::Unemphasised
            }
        },
    }
}

/// The last emphasis node before `k` comes before it.
proof fn lemma_last_emphasis_before(b: Seq<Node>, k: int)
    ensures
        last_emphasis(b, k) matches Some(j) ==> 0 <= j < k && (b[j].value is Emph || b[j].value is Strong),
    decreases k,
{
    if k > 0 {
        lemma_last_emphasis_before(b, k - 1);
    }
}

/// The message for emphasised text with the keyword `kw`.
fn keyword_message(slug: &str, ctx: &Context, n: &Node, e: EmphasisType, kw: &str) -> (r: Message)
    requires
        ctx.body_wf(),
        node_in_source(ctx, *n),
    ensures
        r@ == lint_message(
            ctx.annotation_level,
            slug@,
            "uppercase keywords should not be formatted with "@ + e.spec_description() + " emphasis"@,
            seq![ast_snippet_spec(ctx, *n, ctx.annotation_level, None)],
            seq![
                FooterView {
                    level: Level::Info,
                    title: "uppercase keyword `"@ + kw@ + "` found in "@ + e.spec_description() + " text"@,
                },
            ],
        ),
{
    let desc = e.description();
    let snip = ctx.ast_snippet(n, None, None);
    let ghost sv = snip@;
    let foot = footer(Level::Info, concat5("uppercase keyword `", kw, "` found in ", desc, " text"));
    let ghost fv = foot@;
    let title = concat3("uppercase keywords should not be formatted with ", desc, " emphasis");
    let m = new_message(ctx.annotation_level(), slug, title, vec1(snip), vec1(foot));
    proof {
        reveal_strlit("uppercase keywords should not be formatted with ");
        reveal_strlit(" emphasis");
        reveal_strlit("uppercase keyword `");
        reveal_strlit("` found in ");
        reveal_strlit(" text");
        assert(m@.snippets =~= seq![sv]);
        assert(m@.footers =~= seq![fv]);
    }
    m
}

/// The message for node `i` of the body, when it is emphasised text with an
/// uppercase keyword: it names the emphasis and the first keyword.
pub open spec fn emphasis_keyword_message(ctx: &Context, slug: Seq<char>, i: int) -> Option<MessageView> {
    let n = ctx.body@[i];
    let e = emphasis_at(ctx.body@, i);
    match n.value {
        NodeKind::Text(t) => if e == EmphasisType::Unemphasised {
            None
        } else {
            match regex_first(keyword_pattern(), t@) {
                None => None,
                Some(m) => Some(
                    lint_message(
                        ctx.annotation_level,
                        slug,
                        "uppercase keywords should not be formatted with "@ + e.spec_description() + " emphasis"@,
                        seq![ast_snippet_spec(ctx, n, ctx.annotation_level, None)],
                        seq![
                            FooterView {
                                level: Level::Info,
                                title: "uppercase keyword `"@ + m.text + "` found in "@ + e.spec_description() + " text"@,
                            },
                        ],
                    ),
                ),
            }
        },
        _ => None,
    }
}

/// The messages for the first `k` nodes are, in order, those of the
/// emphasised texts with an uppercase keyword.
proof fn lemma_keyword_messages_filter(ctx: &Context, slug: Seq<char>, k: int)
    requires
        0 <= k <= ctx.body@.len(),
    ensures
        keyword_messages(ctx, slug, k) == Seq::new(k as nat, |i: int| i).filter(
            |i: int| emphasis_keyword_message(ctx, slug, i) is Some,
        ).map_values(|i: int| emphasis_keyword_message(ctx, slug, i)->0),
    decreases k,
{
    reveal(Seq::filter);
    let pred = |i: int| emphasis_keyword_message(ctx, slug, i) is Some;
    let msg = |i: int| emphasis_keyword_message(ctx, slug, i)->0;
    let t = Seq::new(k as nat, |i: int| i);
    if k > 0 {
        lemma_keyword_messages_filter(ctx, slug, k - 1);
        assert(t.drop_last() =~= Seq::new((k - 1) as nat, |i: int| i));
        assert(t.last() == k - 1);
        let sub = t.drop_last().filter(pred);
        assert(t.filter(pred) == if pred(t.last()) {
            sub.push(t.last())
        } else {
            sub
        });
        assert(sub.push(t.last()).map_values(msg) =~= sub.map_values(msg).push(msg(t.last())));
    } else {
        assert(t =~= Seq::<int>::empty());
        assert(t.filter(pred) =~= Seq::<int>::empty());
        assert(t.filter(pred).map_values(msg) =~= Seq::<MessageView>::empty());
    }
}

/// Once the pattern compiles, the lint raises, in document order, exactly
/// one message for each emphasised text with an uppercase keyword, wherever
/// it stands, and no other.
pub proof fn law_no_emphasis_keywords_exact(lint: NoEmphasisKeywords, slug: Seq<char>, ctx: &Context)
    ensures
        regex_compiles(keyword_pattern()) ==> lint.spec_lint(slug, ctx) == Ok::<Seq<MessageView>, Seq<char>>(
            Seq::new(ctx.body@.len(), |i: int| i).filter(|i: int| emphasis_keyword_message(ctx, slug, i) is Some).map_values(
                |i: int| emphasis_keyword_message(ctx, slug, i)->0,
            ),
        ),
{
    lemma_keyword_messages_filter(ctx, slug, ctx.body@.len() as int);
}

} // verus!
