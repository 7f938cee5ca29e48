//! The text of a link to a proposal must name it as `EIP-N` or `ERC-N`,
//! with the prefix of the repository it links to.

use vstd::prelude::*;

use crate::lints::markdown::relative_links::{eq_ignore_ascii_case, eq_ignore_case};
use crate::lints::markdown::{ast_snippet_spec, node_in_source};
use crate::lints::{lint_message, message_one, result_view, vec1, Context, Error};
use crate::pattern::{captures, compile, groups_view, is_match, regex_captures, regex_compiles, regex_error, regex_matches, Pattern};
use crate::snippets::{Message, MessageView};
use crate::text::chars_of;
use crate::tree::{ancestor, is_ancestor, Node, NodeKind};

verus! {

/// Links to proposals on the proposals' site must have text that starts
/// with `EIP-` or `ERC-` (in any case), matching the repository
/// (`EIPS` or `ERCS`) in the address.
#[derive(Debug, Clone, Copy)]
pub struct LinkTextFormat;

/// The pattern of an address of a proposal on the proposals' site.
pub open spec fn site_url_pattern() -> Seq<char> {
    "(?i)^https?://(?:eips|ercs)\\.ethereum\\.org/(?:EIPS|ERCS)/(?:eip|erc)-(\\d+)"@
}

/// The pattern of the text of such a link.
pub open spec fn link_text_pattern() -> Seq<char> {
    "(?i)^(?:eip|erc)-(\\d+)$"@
}

/// The address of a link or an image.
pub open spec fn address_of(n: Node) -> Option<Seq<char>> {
    match n.value {
        NodeKind::Link { url, title } => Some(url@),
        NodeKind::Image { url, title } => Some(url@),
        _ => None,
    }
}

/// The last link or image among the first `k` nodes.
pub open spec fn last_link(b: Seq<Node>, k: int) -> Option<int>
    decreases k,
{
    if k <= 0 {
        None
    } else if address_of(b[k - 1]) is Some {
        Some(k - 1)
    } else {
        last_link(b, k - 1)
    }
}

/// The address of a proposal that node `i` lies in: entering a link or an
/// image to a proposal sets it, entering another keeps it, and leaving any
/// link or image clears it.
pub open spec fn current_address(b: Seq<Node>, i: int) -> Option<Seq<char>>
    decreases i,
{
    match last_link(b, i) {
        None => None,
        Some(l) => if 0 <= l < i && is_ancestor(b, l, i) {
            let a = address_of(b[l])->0;
            if regex_matches(site_url_pattern(), a) {
                Some(a)
            } else {
                current_address(b, l)
            }
        } else {
            None
        },
    }
}

/// `t` starts with `p`, ASCII letters compared without case.
pub open spec fn starts_ignoring_case(t: Seq<char>, p: Seq<char>) -> bool {
    t.len() >= p.len() && eq_ignore_ascii_case(t.take(p.len() as int), p)
}

/// `t` holds `p`, ASCII letters compared without case.
pub open spec fn holds_ignoring_case(t: Seq<char>, p: Seq<char>) -> bool {
    exists|i: int| 0 <= i && i + p.len() <= t.len() && #[trigger] eq_ignore_ascii_case(t.subrange(i, i + p.len()), p)
}

/// The text of a link to the address `a` is in the wrong format: it does
/// not start with `eip-` or `erc-`, or with the one that the address's
/// repository calls for.
pub open spec fn wrong_format(a: Seq<char>, t: Seq<char>) -> bool {
    let caps = regex_captures(site_url_pattern(), a);
    if caps.len() == 0 {
        false
    } else {
        let path = if caps[0].len() > 0 && caps[0][0] is Some { caps[0][0]->0.text } else { seq![] };
        let url_erc = holds_ignoring_case(path, "/ercs/"@);
        if starts_ignoring_case(t, "erc-"@) {
            !url_erc
        } else if starts_ignoring_case(t, "eip-"@) {
            url_erc
        } else {
            true
        }
    }
}

/// The messages for the first `k` nodes.
pub open spec fn format_messages(ctx: &Context, slug: Seq<char>, k: int) -> Seq<MessageView>
    decreases k,
{
    if k <= 0 {
        seq![]
    } else {
        let prev = format_messages(ctx, slug, k - 1);
        let n = ctx.body@[k - 1];
        match n.value {
            NodeKind::Text(t) => match current_address(ctx.body@, k - 1) {
                Some(a) => if wrong_format(a, t@) {
                    prev.push(
                        lint_message(
                            ctx.annotation_level,
                            slug,
                            "link text for EIP references must be in the format `EIP-N` or `ERC-N`"@,
                            seq![ast_snippet_spec(ctx, n, ctx.annotation_level, None)],
                            seq![],
                        ),
                    )
                } else {
                    prev
                },
                None => prev,
            },
            _ => prev,
        }
    }
}

impl LinkTextFormat {
    /// An error when a pattern does not compile; otherwise a message for
    /// each text in a link to a proposal that is not in the format its
    /// address calls for.
    pub open spec fn spec_lint(&self, slug: Seq<char>, ctx: &Context) -> Result<Seq<MessageView>, Seq<char>> {
        if !regex_compiles(site_url_pattern()) {
            Err(regex_error(site_url_pattern()))
        } else if !regex_compiles(link_text_pattern()) {
            Err(regex_error(link_text_pattern()))
        } else {
            Ok(format_messages(ctx, slug, ctx.body@.len() as int))
        }
    }

    pub fn lint(&self, slug: &str, ctx: &Context) -> (r: Result<Vec<Message>, Error>)
        requires
            ctx.body_wf(),
        ensures
            result_view(r) == self.spec_lint(slug@, ctx),
    {
        proof {
            reveal_strlit("(?i)^https?://(?:eips|ercs)\\.ethereum\\.org/(?:EIPS|ERCS)/(?:eip|erc)-(\\d+)");
            reveal_strlit("(?i)^(?:eip|erc)-(\\d+)$");
        }
        let site = match compile("(?i)^https?://(?:eips|ercs)\\.ethereum\\.org/(?:EIPS|ERCS)/(?:eip|erc)-(\\d+)") {
            Ok(re) => re,
            Err(message) => return Err(Error::Custom { message }),
        };
        match compile("(?i)^(?:eip|erc)-(\\d+)$") {
            Ok(_) => {},
            Err(message) => return Err(Error::Custom { message }),
        }
        let b = &ctx.body;
        let mut msgs: Vec<Message> = Vec::new();
        // For each node so far, the link or image whose address it lies in.
        let mut current: Vec<Option<usize>> = Vec::new();
        let mut last: Option<usize> = None;
        let mut i: usize = 0;
        while i < b.len()
            invariant
                ctx.body_wf(),
                b == &ctx.body,
                site@ == site_url_pattern(),
                i <= b@.len(),
                current@.len() == i,
                forall|k: int| 0 <= k < i ==> provider_address(b@, #[trigger] current@[k]) == current_address(b@, k),
                forall|k: int|
                    0 <= k < i ==> (#[trigger] current@[k] matches Some(j) ==> j < b@.len() && address_of(b@[j as int]) is Some),
                last_link(b@, i as int) == match last { Some(j) => Some(j as int), None => None::<int> },
                msgs@.map_values(|m: Message| m@) == format_messages(ctx, slug@, i as int),
            decreases b@.len() - i,
        {
            proof {
                lemma_last_link_before(b@, i as int);
            }
            let here: Option<usize> = match last {
                None => None,
                Some(l) => {
                    if ancestor(b, l, i) {
                        let a = address(&b[l]);
                        if is_match(&site, a) {
                            Some(l)
                        } else {
                            current[l]
                        }
                    } else {
                        None
                    }
                },
            };
            assert(provider_address(b@, here) == current_address(b@, i as int));
            assert(here matches Some(j) ==> j < b@.len() && address_of(b@[j as int]) is Some);
            let n = &b[i];
            if let NodeKind::Text(t) = &n.value {
                if let Some(l) = here {
                    let a = address(&b[l]);
                    if is_wrong(&site, a, t.as_str()) {
                        assert(node_in_source(ctx, ctx.body@[i as int]));
                        let snip = ctx.ast_snippet(n, None, None);
                        let m = message_one(
                            ctx.annotation_level(),
                            slug,
                            String::from_str("link text for EIP references must be in the format `EIP-N` or `ERC-N`"),
                            snip,
                        );
                        proof {
                            reveal_strlit("link text for EIP references must be in the format `EIP-N` or `ERC-N`");
                        }
                        let ghost before = msgs@.map_values(|m: Message| m@);
                        msgs.push(m);
                        assert(msgs@.map_values(|m: Message| m@) =~= before.push(m@));
                    }
                }
            }
            current.push(here);
            match &n.value {
                NodeKind::Link { .. } => last = Some(i),
                NodeKind::Image { .. } => last = Some(i),
                _ => {},
            }
            i += 1;
        }
        Ok(msgs)
    }
}

/// The address that a link or image provides, when there is one.
pub open spec fn provider_address(b: Seq<Node>, p: Option<usize>) -> Option<Seq<char>> {
    match p {
        Some(l) => address_of(b[l as int]),
        None => None,
    }
}

/// The last link or image before `k` comes before it and is one.
proof fn lemma_last_link_before(b: Seq<Node>, k: int)
    ensures
        last_link(b, k) matches Some(j) ==> 0 <= j < k && address_of(b[j]) is Some,
    decreases k,
{
    if k > 0 {
        lemma_last_link_before(b, k - 1);
    }
}

/// The address of a link or an image (empty for another node).
fn address(n: &Node) -> (r: &str)
    ensures
        address_of(*n) matches Some(a) ==> r@ == a,
{
    match &n.value {
        NodeKind::Link { url, title } => url.as_str(),
        NodeKind::Image { url, title } => url.as_str(),
        _ => "",
    }
}

/// Whether the text `t` of a link to `a` is in the wrong format.
fn is_wrong(site: &Pattern, a: &str, t: &str) -> (r: bool)
    requires
        site@ == site_url_pattern(),
    ensures
        r == wrong_format(a@, t@),
{
    proof {
        reveal_strlit("/ercs/");
        reveal_strlit("erc-");
        reveal_strlit("eip-");
    }
    let caps = captures(site, a);
    if caps.len() == 0 {
        return false;
    }
    let g = &caps[0];
    assert(groups_view(g@) == regex_captures(site_url_pattern(), a@)[0]);
    let path: &str = if g.len() > 0 {
        assert(regex_captures(site_url_pattern(), a@)[0][0] == crate::pattern::opt_capture_view(g@[0]));
        match &g[0] {
            Some(c) => c.text.as_str(),
            None => "",
        }
    } else {
        ""
    };
    proof {
        reveal_strlit("");
    }
    let url_erc = holds_case(path, "/ercs/");
    if starts_case(t, "erc-") {
        !url_erc
    } else if starts_case(t, "eip-") {
        url_erc
    } else {
        true
    }
}

/// Whether `t` starts with `p`, ASCII letters compared without case.
fn starts_case(t: &str, p: &str) -> (r: bool)
    ensures
        r == starts_ignoring_case(t@, p@),
{
    let tc = chars_of(t);
    let pc = chars_of(p);
    if tc.len() < pc.len() {
        return false;
    }
    let head = crate::text::string_of(vstd::slice::slice_subrange(tc.as_slice(), 0, pc.len()));
    assert(head@ =~= t@.take(p@.len() as int));
    eq_ignore_case(head.as_str(), p)
}

/// Whether `t` holds `p`, ASCII letters compared without case.
fn holds_case(t: &str, p: &str) -> (r: bool)
    ensures
        r == holds_ignoring_case(t@, p@),
{
    let tc = chars_of(t);
    let pc = chars_of(p);
    if tc.len() < pc.len() {
        return false;
    }
    let mut i: usize = 0;
    while i <= tc.len() - pc.len()
        invariant
            tc@ == t@,
            pc@ == p@,
            pc@.len() <= tc@.len(),
            i <= tc@.len() - pc@.len() + 1,
            forall|k: int| 0 <= k < i ==> !eq_ignore_ascii_case(#[trigger] t@.subrange(k, k + p@.len()), p@),
        decreases tc@.len() - pc@.len() + 1 - i,
    {
        let piece = crate::text::string_of(vstd::slice::slice_subrange(tc.as_slice(), i, i + pc.len()));
        assert(piece@ =~= t@.subrange(i as int, i + p@.len()));
        if eq_ignore_case(piece.as_str(), p) {
            return true;
        }
        i += 1;
    }
    assert forall|k: int| 0 <= k && k + p@.len() <= t@.len() implies !#[trigger] eq_ignore_ascii_case(t@.subrange(k, k + p@.len()), p@) by {
        assert(k < i);
    }
    false
}

/// The message for node `i` of the body, when it is text in a link to a
/// proposal that is not in the format the link's address calls for.
pub open spec fn format_message(ctx: &Context, slug: Seq<char>, i: int) -> Option<MessageView> {
    let n = ctx.body@[i];
    match n.value {
        NodeKind::Text(t) => match current_address(ctx.body@, i) {
            Some(a) => if wrong_format(a, t@) {
                Some(
                    lint_message(
                        ctx.annotation_level,
                        slug,
                        "link text for EIP references must be in the format `EIP-N` or `ERC-N`"@,
                        seq![ast_snippet_spec(ctx, n, ctx.annotation_level, None)],
                        seq![],
                    ),
                )
            } else {
                None
            },
            None => None,
        },
        _ => None,
    }
}

/// The messages for the first `k` nodes are, in order, those of the texts
/// that draw one.
proof fn lemma_format_messages_filter(ctx: &Context, slug: Seq<char>, k: int)
    requires
        0 <= k <= ctx.body@.len(),
    ensures
        format_messages(ctx, slug, k) == Seq::new(k as nat, |i: int| i).filter(
            |i: int| format_message(ctx, slug, i) is Some,
        ).map_values(|i: int| format_message(ctx, slug, i)->0),
    decreases k,
{
    reveal(Seq::filter);
    let pred = |i: int| format_message(ctx, slug, i) is Some;
    let msg = |i: int| format_message(ctx, slug, i)->0;
    let t = Seq::new(k as nat, |i: int| i);
    if k > 0 {
        lemma_format_messages_filter(ctx, slug, k - 1);
        assert(t.drop_last() =~= Seq::new((k - 1) as nat, |i: int| i));
        assert(t.last() == k - 1);
        let sub = t.drop_last().filter(pred);
        assert(t.filter(pred) == if pred(t.last()) {
            sub.push(t.last())
        } else {
            sub
        });
        assert(sub.push(t.last()).map_values(msg) =~= sub.map_values(msg).push(msg(t.last())));
    } else {
        assert(t =~= Seq::<int>::empty());
        assert(t.filter(pred) =~= Seq::<int>::empty());
        assert(t.filter(pred).map_values(msg) =~= Seq::<MessageView>::empty());
    }
}

/// Once both patterns compile, the lint raises, in document order, exactly
/// one message for each text in a link to a proposal that is not in the
/// format the link's address calls for, wherever it stands, and no other.
pub proof fn law_link_text_format_exact(lint: LinkTextFormat, slug: Seq<char>, ctx: &Context)
    ensures
        regex_compiles(site_url_pattern()) && regex_compiles(link_text_pattern()) ==> lint.spec_lint(slug, ctx) == Ok::<
            Seq<MessageView>,
            Seq<char>,
        >(
            Seq::new(ctx.body@.len(), |i: int| i).filter(|i: int| format_message(ctx, slug, i) is Some).map_values(
                |i: int| format_message(ctx, slug, i)->0,
            ),
        ),
{
    lemma_format_messages_filter(ctx, slug, ctx.body@.len() as int);
}

} // verus!
