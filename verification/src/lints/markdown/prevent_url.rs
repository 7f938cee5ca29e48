//! Example addresses must be hyperlinked or come from an allowed domain.

use vstd::prelude::*;

use crate::lints::markdown::{node_in_source, source_for_text_spec};
use crate::lints::{lint_message, new_message, result_view, strings_view, vec1, Context, Error};
use crate::pattern::{
    any_matches, captures, compile, compile_set, groups_view, regex_captures, regex_compiles, regex_error,
    regex_set_compiles, regex_set_error, set_is_match, CaptureView, Pattern, PatternSet,
};
use crate::snippets::{footer, FooterView, Level, Message, MessageView, SnippetView};
use crate::text::{chars_of, concat3, split, split_chars, string_of};
use crate::tree::{Node, NodeKind};

verus! {

/// Example addresses (of `example.com` and the like) in text and code must
/// be hyperlinked, or come from one of the allowed domains.
#[derive(Debug, Clone)]
pub struct PreventUrlsNoBackticks {
    pub allowed_domains: Vec<String>,
}

/// The pattern of an example address.
pub open spec fn example_url_pattern() -> Seq<char> {
    "https?://(?:example\\.com|example\\.net|example\\.org|example|invalid|test)(?:/[^`\\s]*)?"@
}

/// The domain of an address: the third piece between slashes, or nothing.
pub open spec fn domain_of(url: Seq<char>) -> Seq<char> {
    let p = split(url, '/');
    if p.len() > 2 {
        p[2]
    } else {
        seq![]
    }
}

/// The text the lint reads in a node: that of text, inline code and code
/// blocks.
pub open spec fn url_text(n: Node) -> Option<Seq<char>> {
    match n.value {
        NodeKind::Text(t) => Some(t@),
        NodeKind::Code(t) => Some(t@),
        NodeKind::CodeBlock { info, literal } => Some(literal@),
        _ => None,
    }
}

impl PreventUrlsNoBackticks {
    /// The message for the address `url` in text `t` of node `n`.
    pub open spec fn url_message(&self, ctx: &Context, slug: Seq<char>, n: Node, t: Seq<char>, url: Seq<char>) -> MessageView {
        lint_message(
            ctx.annotation_level,
            slug,
            "Disallowed URL in plain text or code fence"@,
            seq![
                SnippetView {
                    source: source_for_text_spec(ctx, n.start_line as int, t),
                    line_start: n.start_line as int,
                    origin: ctx.origin_view(),
                    fold: false,
                    annotations: seq![],
                },
            ],
            seq![FooterView { level: Level::Help, title: "This URL must be hyperlinked or from an allowed domain: `"@ + url + "`"@ }],
        )
    }

    /// The messages for the first `k` example addresses in text `t` of node
    /// `n`: one for each whose domain no allowed pattern matches.
    pub open spec fn url_messages(&self, ctx: &Context, slug: Seq<char>, n: Node, t: Seq<char>, k: int) -> Seq<MessageView>
        decreases k,
    {
        if k <= 0 {
            seq![]
        } else {
            let prev = self.url_messages(ctx, slug, n, t, k - 1);
            let url = regex_captures(example_url_pattern(), t)[k - 1][0]->0.text;
            if any_matches(strings_view(self.allowed_domains@), domain_of(url)) {
                prev
            } else {
                prev.push(self.url_message(ctx, slug, n, t, url))
            }
        }
    }

    /// The messages for the first `k` nodes.
    pub open spec fn node_messages(&self, ctx: &Context, slug: Seq<char>, k: int) -> Seq<MessageView>
        decreases k,
    {
        if k <= 0 {
            seq![]
        } else {
            let prev = self.node_messages(ctx, slug, k - 1);
            let n = ctx.body@[k - 1];
            match url_text(n) {
                Some(t) => prev + self.url_messages(ctx, slug, n, t, regex_captures(example_url_pattern(), t).len() as int),
                None => prev,
            }
        }
    }

    /// An error when the pattern or the allowed domains do not compile;
    /// otherwise a message for each example address in text or code whose
    /// domain is not allowed, in order.
    pub open spec fn spec_lint(&self, slug: Seq<char>, ctx: &Context) -> Result<Seq<MessageView>, Seq<char>> {
        if !regex_compiles(example_url_pattern()) {
            Err(regex_error(example_url_pattern()))
        } else if !regex_set_compiles(strings_view(self.allowed_domains@)) {
            Err(regex_set_error(strings_view(self.allowed_domains@)))
        } else {
            Ok(self.node_messages(ctx, slug, ctx.body@.len() as int))
        }
    }

    pub fn lint(&self, slug: &str, ctx: &Context) -> (r: Result<Vec<Message>, Error>)
        requires
            ctx.body_wf(),
        ensures
            result_view(r) == self.spec_lint(slug@, ctx),
    {
        proof {
            reveal_strlit("https?://(?:example\\.com|example\\.net|example\\.org|example|invalid|test)(?:/[^`\\s]*)?");
        }
        let re = match compile("https?://(?:example\\.com|example\\.net|example\\.org|example|invalid|test)(?:/[^`\\s]*)?") {
            Ok(re) => re,
            Err(message) => return Err(Error::Custom { message }),
        };
        let allowed = match compile_set(&self.allowed_domains) {
            Ok(set) => set,
            Err(message) => return Err(Error::Custom { message }),
        };
        let mut msgs: Vec<Message> = Vec::new();
        let mut i: usize = 0;
        while i < ctx.body.len()
            invariant
                ctx.body_wf(),
                re@ == example_url_pattern(),
                allowed@ == strings_view(self.allowed_domains@),
                i <= ctx.body@.len(),
                msgs@.map_values(|m: Message| m@) == self.node_messages(ctx, slug@, i as int),
            decreases ctx.body@.len() - i,
        {
            let n = &ctx.body[i];
            assert(node_in_source(ctx, ctx.body@[i as int]));
            let text: Option<&String> = match &n.value {
                NodeKind::Text(t) => Some(t),
                NodeKind::Code(t) => Some(t),
                NodeKind::CodeBlock { info, literal } => Some(literal),
                _ => None,
            };
            assert(url_text(*n) == match text { Some(t) => Some(t@), None => None::<Seq<char>> });
            if let Some(t) = text {
                let mut more = self.text_messages(slug, ctx, &re, &allowed, n, t.as_str());
                let ghost before = msgs@.map_values(|m: Message| m@);
                let ghost extra = more@.map_values(|m: Message| m@);
                msgs.append(&mut more);
                assert(msgs@.map_values(|m: Message| m@) =~= before + extra);
            }
            i += 1;
        }
        Ok(msgs)
    }

    /// The messages for the example addresses in text `t` of node `n`.
    fn text_messages(&self, slug: &str, ctx: &Context, re: &Pattern, allowed: &PatternSet, n: &Node, t: &str) -> (r: Vec<Message>)
        requires
            node_in_source(ctx, *n),
            re@ == example_url_pattern(),
            allowed@ == strings_view(self.allowed_domains@),
        ensures
            r@.map_values(|m: Message| m@) == self.url_messages(
                ctx,
                slug@,
                *n,
                t@,
                regex_captures(example_url_pattern(), t@).len() as int,
            ),
    {
        let caps = captures(re, t);
        let ghost scaps = regex_captures(example_url_pattern(), t@);
        let mut msgs: Vec<Message> = Vec::new();
        let mut k: usize = 0;
        while k < caps.len()
            invariant
                node_in_source(ctx, *n),
                allowed@ == strings_view(self.allowed_domains@),
                scaps == regex_captures(example_url_pattern(), t@),
                caps@.len() == scaps.len(),
                forall|j: int| 0 <= j < caps@.len() ==> groups_view(#[trigger] caps@[j]@) == scaps[j],
                forall|j: int|
                    #![trigger scaps[j]]
                    0 <= j < caps@.len() ==> scaps[j].len() >= 1 && scaps[j][0] is Some,
                k <= caps@.len(),
                msgs@.map_values(|m: Message| m@) == self.url_messages(ctx, slug@, *n, t@, k as int),
            decreases caps@.len() - k,
        {
            let g = &caps[k];
            assert(groups_view(g@) == scaps[k as int]);
            assert(scaps[k as int][0] == crate::pattern::opt_capture_view(g@[0]));
            let url = match &g[0] {
                Some(c) => c.text.as_str(),
                None => {
                    assert(false);
                    return msgs;
                },
            };
            let domain = domain_text(url);
            if !set_is_match(allowed, domain.as_str()) {
                let m = self.url_message_of(slug, ctx, n, t, url);
                let ghost before = msgs@.map_values(|m: Message| m@);
                msgs.push(m);
                assert(msgs@.map_values(|m: Message| m@) =~= before.push(m@));
            }
            k += 1;
        }
        msgs
    }

    /// The message for one example address.
    fn url_message_of(&self, slug: &str, ctx: &Context, n: &Node, t: &str, url: &str) -> (r: Message)
        requires
            node_in_source(ctx, *n),
        ensures
            r@ == self.url_message(ctx, slug@, *n, t@, url@),
    {
        let source = ctx.source_for_text(n.start_line, t);
        let snip = crate::snippets::snippet(source.as_str(), n.start_line, ctx.origin(), false, Vec::new());
        assert(snip@.annotations =~= seq![]);
        let ghost sv = snip@;
        let foot = footer(Level::Help, concat3("This URL must be hyperlinked or from an allowed domain: `", url, "`"));
        let ghost fv = foot@;
        let m = new_message(
            ctx.annotation_level(),
            slug,
            String::from_str("Disallowed URL in plain text or code fence"),
            vec1(snip),
            vec1(foot),
        );
        proof {
            reveal_strlit("Disallowed URL in plain text or code fence");
            reveal_strlit("This URL must be hyperlinked or from an allowed domain: `");
            reveal_strlit("`");
            assert(m@.snippets =~= seq![sv]);
            assert(m@.footers =~= seq![fv]);
        }
        m
    }
}

/// The domain of an address.
fn domain_text(url: &str) -> (r: String)
    ensures
        r@ == domain_of(url@),
{
    let c = chars_of(url);
    let pieces = split_chars(c.as_slice(), '/');
    if pieces.len() > 2 {
        assert(pieces@[2]@ == split(url@, '/')[2]);
        string_of(pieces[2].as_slice())
    } else {
        String::new()
    }
}

impl PreventUrlsNoBackticks {
    /// Example address `c` of text `t`.
    pub open spec fn example_url(t: Seq<char>, c: int) -> Seq<char> {
        regex_captures(example_url_pattern(), t)[c][0]->0.text
    }

    /// The domain of example address `c` of text `t` is allowed.
    pub open spec fn url_allowed(&self, t: Seq<char>, c: int) -> bool {
        any_matches(strings_view(self.allowed_domains@), domain_of(Self::example_url(t, c)))
    }

    /// The messages for the example addresses of node `i`, in order.
    pub open spec fn messages_of_node(&self, ctx: &Context, slug: Seq<char>, i: int) -> Seq<MessageView> {
        let n = ctx.body@[i];
        match url_text(n) {
            Some(t) => Seq::new(regex_captures(example_url_pattern(), t).len(), |c: int| c).filter(
                |c: int| !self.url_allowed(t, c),
            ).map_values(|c: int| self.url_message(ctx, slug, n, t, Self::example_url(t, c))),
            None => seq![],
        }
    }

    /// The messages for the first `k` addresses of text `t` are, in order,
    /// those of the addresses whose domain is not allowed.
    proof fn lemma_url_messages_filter(&self, ctx: &Context, slug: Seq<char>, n: Node, t: Seq<char>, k: int)
        requires
            0 <= k,
        ensures
            self.url_messages(ctx, slug, n, t, k) == Seq::new(k as nat, |c: int| c).filter(
                |c: int| !self.url_allowed(t, c),
            ).map_values(|c: int| self.url_message(ctx, slug, n, t, Self::example_url(t, c))),
        decreases k,
    {
        reveal(Seq::filter);
        let pred = |c: int| !self.url_allowed(t, c);
        let msg = |c: int| self.url_message(ctx, slug, n, t, Self::example_url(t, c));
        let s = Seq::new(k as nat, |c: int| c);
        if k > 0 {
            self.lemma_url_messages_filter(ctx, slug, n, t, k - 1);
            assert(s.drop_last() =~= Seq::new((k - 1) as nat, |c: int| c));
            assert(s.last() == k - 1);
            let sub = s.drop_last().filter(pred);
            assert(s.filter(pred) == if pred(s.last()) {
                sub.push(s.last())
            } else {
                sub
            });
            assert(sub.push(s.last()).map_values(msg) =~= sub.map_values(msg).push(msg(s.last())));
        } else {
            assert(s =~= Seq::<int>::empty());
            assert(s.filter(pred) =~= Seq::<int>::empty());
            assert(s.filter(pred).map_values(msg) =~= Seq::<MessageView>::empty());
        }
    }

    /// The messages for the first `k` nodes are those of each node in turn.
    proof fn lemma_node_messages_flatten(&self, ctx: &Context, slug: Seq<char>, k: int)
        requires
            0 <= k <= ctx.body@.len(),
        ensures
            self.node_messages(ctx, slug, k) == Seq::new(k as nat, |i: int| self.messages_of_node(ctx, slug, i)).flatten(),
        decreases k,
    {
        let parts = Seq::new(k as nat, |i: int| self.messages_of_node(ctx, slug, i));
        parts.lemma_flatten_and_flatten_alt_are_equivalent();
        if k > 0 {
            self.lemma_node_messages_flatten(ctx, slug, k - 1);
            let prev_parts = Seq::new((k - 1) as nat, |i: int| self.messages_of_node(ctx, slug, i));
            prev_parts.lemma_flatten_and_flatten_alt_are_equivalent();
            assert(parts.drop_last() =~= prev_parts);
            let n = ctx.body@[k - 1];
            if let Some(t) = url_text(n) {
                self.lemma_url_messages_filter(ctx, slug, n, t, regex_captures(example_url_pattern(), t).len() as int);
            }
            assert(parts.last() == self.messages_of_node(ctx, slug, k - 1));
        } else {
            assert(parts =~= Seq::<Seq<MessageView>>::empty());
        }
    }
}

/// Once the pattern and the allowed domains compile, the lint raises, node
/// by node in document order and address by address within a node, exactly
/// one message for each example address in text or code whose domain is not
/// allowed, wherever it stands, and no other.
pub proof fn law_prevent_urls_exact(lint: PreventUrlsNoBackticks, slug: Seq<char>, ctx: &Context)
    ensures
        regex_compiles(example_url_pattern()) && regex_set_compiles(strings_view(lint.allowed_domains@)) ==> lint.spec_lint(
            slug,
            ctx,
        ) == Ok::<Seq<MessageView>, Seq<char>>(
            Seq::new(ctx.body@.len(), |i: int| lint.messages_of_node(ctx, slug, i)).flatten(),
        ),
{
    lint.lemma_node_messages_flatten(ctx, slug, ctx.body@.len() as int);
}

} // verus!
