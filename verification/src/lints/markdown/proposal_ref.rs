//! References to other proposals in the text of the body must use the
//! prefix that the referenced proposal's category calls for.

use vstd::prelude::*;

use crate::lints::markdown::{ast_lines_spec, ast_snippet_spec, lemma_ast_lines_blen, node_in_source};
use crate::lints::preamble::proposal_ref::{
    category_of, prefix_for, reference_number, reference_numbers, reference_pattern, reference_read,
};
use crate::lints::{find_proposal, lint_message, message_one, result_view, Context, Error, Proposal};
use crate::pattern::{captures, groups_of, groups_view, is_match_of, regex_captures, regex_compiles, regex_error, CaptureView, Pattern};
use crate::search::{match_spans, occurrence_span, occurrences};
use crate::snippets::{span, Annotation, AnnotationView, Level, Message, MessageView, SnippetView};
use crate::text::{blen, chars_eq, chars_of, concat, concat3, parse_u32, trim_str};
use crate::tree::{Node, NodeKind};

verus! {

/// Proposals referenced in the text (`EIP-N` or `ERC-N`) must be written
/// `ERC-N` when their category is `ERC`, and `EIP-N` otherwise.
#[derive(Debug, Clone, Copy)]
pub struct ProposalRef;

/// The references in a node: every match of the pattern in its text, when
/// it is text.
pub open spec fn node_refs(n: Node) -> Seq<Seq<Option<CaptureView>>> {
    match n.value {
        NodeKind::Text(t) => regex_captures(reference_pattern(), t@),
        _ => seq![],
    }
}

/// Annotations of the given byte ranges.
pub open spec fn annotations_of(level: Level, spans: Seq<(int, int)>) -> Seq<AnnotationView> {
    spans.map_values(|p: (int, int)| AnnotationView { level, start: p.0, end: p.1, label: None })
}

/// The messages for the reference `g` in node `n`: when the proposal could
/// not be read, one that shows the node; when the reference lacks the
/// prefix that the proposal's category calls for, one that shows the
/// node's lines and marks each occurrence of the reference in them.
pub open spec fn ref_messages(ctx: &Context, slug: Seq<char>, n: Node, g: Seq<Option<CaptureView>>) -> Seq<MessageView> {
    let level = ctx.annotation_level;
    let whole = g[0]->0.text;
    let prop = find_proposal(ctx.proposals@, reference_number(g)->0 as u32)->0;
    match prop.preamble {
        None => seq![
            lint_message(
                level,
                slug,
                "unable to read proposal `"@ + whole + "`: "@ + prop.error@,
                seq![ast_snippet_spec(ctx, n, level, None)],
                seq![],
            ),
        ],
        Some(pre) => prefix_messages(ctx, slug, n, whole, category_of(pre@)),
    }
}

/// The messages for the first `k` references of node `n`.
pub open spec fn node_messages(ctx: &Context, slug: Seq<char>, n: Node, k: int) -> Seq<MessageView>
    decreases k,
{
    if k <= 0 {
        seq![]
    } else {
        node_messages(ctx, slug, n, k - 1) + ref_messages(ctx, slug, n, node_refs(n)[k - 1])
    }
}

/// The messages for the references of the first `i` nodes.
pub open spec fn body_messages(ctx: &Context, slug: Seq<char>, i: int) -> Seq<MessageView>
    decreases i,
{
    if i <= 0 {
        seq![]
    } else {
        let n = ctx.body@[i - 1];
        body_messages(ctx, slug, i - 1) + node_messages(ctx, slug, n, node_refs(n).len() as int)
    }
}

/// The numbers that the references of the first `i` nodes name (as
/// `u32`), in order.
pub open spec fn body_numbers(ctx: &Context, i: int) -> Seq<nat>
    decreases i,
{
    if i <= 0 {
        seq![]
    } else {
        let refs = node_refs(ctx.body@[i - 1]);
        body_numbers(ctx, i - 1) + reference_numbers(refs, refs.len() as int)
    }
}

impl ProposalRef {
    /// Every reference names a `u32` number whose proposal was read.
    pub open spec fn admits(&self, ctx: &Context) -> bool {
        regex_compiles(reference_pattern()) ==> forall|i: int, j: int|
            0 <= i < ctx.body@.len() && 0 <= j < node_refs(ctx.body@[i]).len()
                ==> #[trigger] reference_read(node_refs(ctx.body@[i])[j], ctx.proposals@)
    }

    /// An error when the pattern of a reference does not compile;
    /// otherwise the messages for every reference, node by node.
    pub open spec fn spec_lint(&self, slug: Seq<char>, ctx: &Context) -> Result<Seq<MessageView>, Seq<char>> {
        if !regex_compiles(reference_pattern()) {
            Err(regex_error(reference_pattern()))
        } else {
            Ok(body_messages(ctx, slug, ctx.body@.len() as int))
        }
    }

    /// The numbers that the references name (as `u32`), in order; none
    /// when the pattern does not compile.
    pub open spec fn wanted(&self, ctx: &Context) -> Seq<nat> {
        if !regex_compiles(reference_pattern()) {
            seq![]
        } else {
            body_numbers(ctx, ctx.body@.len() as int)
        }
    }

    /// The lint, where every reference names a proposal that was read.
    pub fn lint(&self, slug: &str, ctx: &Context) -> (r: Result<Vec<Message>, Error>)
        requires
            ctx.body_wf(),
            self.admits(ctx),
        ensures
            result_view(r) == self.spec_lint(slug@, ctx),
    {
        let re = match crate::lints::preamble::ProposalRef::regex() {
            Ok(re) => re,
            Err(message) => return Err(Error::Custom { message }),
        };
        let mut msgs: Vec<Message> = Vec::new();
        let mut i: usize = 0;
        while i < ctx.body.len()
            invariant
                ctx.body_wf(),
                self.admits(ctx),
                re@ == reference_pattern(),
                regex_compiles(reference_pattern()),
                i <= ctx.body@.len(),
                msgs@.map_values(|m: Message| m@) == body_messages(ctx, slug@, i as int),
            decreases ctx.body@.len() - i,
        {
            assert(node_in_source(ctx, ctx.body@[i as int]));
            assert forall|j: int| 0 <= j < node_refs(ctx.body@[i as int]).len() implies
                #[trigger] reference_read(node_refs(ctx.body@[i as int])[j], ctx.proposals@) by {}
            let more = node_lint(slug, ctx, &re, &ctx.body[i]);
            let ghost before = msgs@.map_values(|m: Message| m@);
            let ghost extra = more@.map_values(|m: Message| m@);
            let mut more = more;
            msgs.append(&mut more);
            assert(msgs@.map_values(|m: Message| m@) =~= before + extra);
            i += 1;
        }
        Ok(msgs)
    }

    /// The lint, or none when a reference names no proposal that was read.
    pub fn check(&self, slug: &str, ctx: &Context) -> (r: Option<Result<Vec<Message>, Error>>)
        requires
            ctx.body_wf(),
        ensures
            r is None <==> !self.admits(ctx),
            r matches Some(x) ==> result_view(x) == self.spec_lint(slug@, ctx),
    {
        if let Ok(re) = crate::lints::preamble::ProposalRef::regex() {
            let mut i: usize = 0;
            while i < ctx.body.len()
                invariant
                    re@ == reference_pattern(),
                    regex_compiles(reference_pattern()),
                    i <= ctx.body@.len(),
                    forall|a: int, j: int|
                        0 <= a < i && 0 <= j < node_refs(ctx.body@[a]).len()
                            ==> #[trigger] reference_read(node_refs(ctx.body@[a])[j], ctx.proposals@),
                decreases ctx.body@.len() - i,
            {
                if !node_read(ctx, &re, &ctx.body[i]) {
                    let ghost j = choose|j: int|
                        0 <= j < node_refs(ctx.body@[i as int]).len() && !reference_read(node_refs(ctx.body@[i as int])[j], ctx.proposals@);
                    assert(!reference_read(node_refs(ctx.body@[i as int])[j], ctx.proposals@));
                    return None;
                }
                i += 1;
            }
        }
        Some(self.lint(slug, ctx))
    }

    /// The numbers of the proposals the lint reads.
    pub fn find_resources(&self, ctx: &Context) -> (r: Vec<u32>)
        ensures
            r@.map_values(|n: u32| n as nat) == self.wanted(ctx),
    {
        let mut r: Vec<u32> = Vec::new();
        let re = match crate::lints::preamble::ProposalRef::regex() {
            Ok(re) => re,
            Err(_) => {
                assert(r@.map_values(|n: u32| n as nat) =~= self.wanted(ctx));
                return r;
            },
        };
        let mut i: usize = 0;
        assert(r@.map_values(|n: u32| n as nat) =~= body_numbers(ctx, 0));
        while i < ctx.body.len()
            invariant
                re@ == reference_pattern(),
                i <= ctx.body@.len(),
                r@.map_values(|n: u32| n as nat) == body_numbers(ctx, i as int),
            decreases ctx.body@.len() - i,
        {
            let mut more = node_numbers(&re, &ctx.body[i]);
            let ghost before = r@.map_values(|n: u32| n as nat);
            let ghost extra = more@.map_values(|n: u32| n as nat);
            r.append(&mut more);
            assert(r@.map_values(|n: u32| n as nat) =~= before + extra);
            i += 1;
        }
        r
    }
}

/// The references of a node, from the matches of the compiled pattern.
pub(crate) fn node_captures(re: &Pattern, n: &Node) -> (r: Vec<Vec<Option<crate::pattern::Capture>>>)
    requires
        re@ == reference_pattern(),
    ensures
        r@.len() == node_refs(*n).len(),
        forall|j: int| 0 <= j < r@.len() ==> groups_view(#[trigger] r@[j]@) == node_refs(*n)[j],
        forall|j: int|
            #![trigger node_refs(*n)[j]]
            0 <= j < r@.len() ==> {
                let g = node_refs(*n)[j];
                &&& g.len() >= 1
                &&& g[0] is Some
                &&& (n.value matches NodeKind::Text(t) && groups_of(g, t@))
            },
{
    match &n.value {
        NodeKind::Text(t) => captures(re, t.as_str()),
        _ => {
            let r: Vec<Vec<Option<crate::pattern::Capture>>> = Vec::new();
            assert(r@.len() == 0);
            r
        },
    }
}

/// Whether every reference of a node names a `u32` number whose proposal
/// was read.
fn node_read(ctx: &Context, re: &Pattern, n: &Node) -> (r: bool)
    requires
        re@ == reference_pattern(),
    ensures
        r == forall|j: int| 0 <= j < node_refs(*n).len() ==> #[trigger] reference_read(node_refs(*n)[j], ctx.proposals@),
{
    let caps = node_captures(re, n);
    let ghost refs = node_refs(*n);
    let mut j: usize = 0;
    while j < caps.len()
        invariant
            refs == node_refs(*n),
            caps@.len() == refs.len(),
            forall|k: int| 0 <= k < caps@.len() ==> groups_view(#[trigger] caps@[k]@) == refs[k],
            j <= caps@.len(),
            forall|k: int| 0 <= k < j ==> #[trigger] reference_read(refs[k], ctx.proposals@),
        decreases caps@.len() - j,
    {
        let g = &caps[j];
        assert(groups_view(g@) == refs[j as int]);
        if g.len() < 2 {
            assert(!reference_read(refs[j as int], ctx.proposals@));
            return false;
        }
        assert(refs[j as int][1] == crate::pattern::opt_capture_view(g@[1]));
        let number = match &g[1] {
            None => {
                assert(!reference_read(refs[j as int], ctx.proposals@));
                return false;
            },
            Some(c) => {
                let t = chars_of(c.text.as_str());
                match parse_u32(t.as_slice()) {
                    None => {
                        assert(!reference_read(refs[j as int], ctx.proposals@));
                        return false;
                    },
                    Some(v) => v,
                }
            },
        };
        if ctx.proposal(number).is_none() {
            assert(!reference_read(refs[j as int], ctx.proposals@));
            return false;
        }
        j += 1;
    }
    true
}

/// The numbers that the references of a node name (as `u32`), in order.
fn node_numbers(re: &Pattern, n: &Node) -> (r: Vec<u32>)
    requires
        re@ == reference_pattern(),
    ensures
        r@.map_values(|v: u32| v as nat) == reference_numbers(node_refs(*n), node_refs(*n).len() as int),
{
    let caps = node_captures(re, n);
    let ghost refs = node_refs(*n);
    let mut r: Vec<u32> = Vec::new();
    let mut j: usize = 0;
    while j < caps.len()
        invariant
            refs == node_refs(*n),
            caps@.len() == refs.len(),
            forall|k: int| 0 <= k < caps@.len() ==> groups_view(#[trigger] caps@[k]@) == refs[k],
            j <= caps@.len(),
            r@.map_values(|v: u32| v as nat) == reference_numbers(refs, j as int),
        decreases caps@.len() - j,
    {
        let g = &caps[j];
        assert(groups_view(g@) == refs[j as int]);
        if g.len() >= 2 {
            assert(refs[j as int][1] == crate::pattern::opt_capture_view(g@[1]));
            if let Some(c) = &g[1] {
                let t = chars_of(c.text.as_str());
                if let Some(v) = parse_u32(t.as_slice()) {
                    r.push(v);
                }
            }
        }
        assert(r@.map_values(|v: u32| v as nat) =~= reference_numbers(refs, j + 1));
        j += 1;
    }
    r
}

/// The messages for the references of one node.
fn node_lint(slug: &str, ctx: &Context, re: &Pattern, n: &Node) -> (r: Vec<Message>)
    requires
        ctx.body_wf(),
        node_in_source(ctx, *n),
        re@ == reference_pattern(),
        forall|j: int| 0 <= j < node_refs(*n).len() ==> #[trigger] reference_read(node_refs(*n)[j], ctx.proposals@),
    ensures
        r@.map_values(|m: Message| m@) == node_messages(ctx, slug@, *n, node_refs(*n).len() as int),
{
    let caps = node_captures(re, n);
    let ghost refs = node_refs(*n);
    let mut msgs: Vec<Message> = Vec::new();
    let mut j: usize = 0;
    while j < caps.len()
        invariant
            ctx.body_wf(),
            node_in_source(ctx, *n),
            refs == node_refs(*n),
            forall|k: int| 0 <= k < refs.len() ==> #[trigger] reference_read(refs[k], ctx.proposals@),
            caps@.len() == refs.len(),
            forall|k: int| 0 <= k < caps@.len() ==> groups_view(#[trigger] caps@[k]@) == refs[k],
            forall|k: int|
                #![trigger refs[k]]
                0 <= k < caps@.len() ==> {
                    let g = refs[k];
                    &&& g.len() >= 1
                    &&& g[0] is Some
                    &&& (n.value matches NodeKind::Text(t) && groups_of(g, t@))
                },
            j <= caps@.len(),
            msgs@.map_values(|m: Message| m@) == node_messages(ctx, slug@, *n, j as int),
        decreases caps@.len() - j,
    {
        let g = &caps[j];
        let ghost gv = refs[j as int];
        assert(groups_view(g@) == gv);
        assert(reference_read(gv, ctx.proposals@));
        assert(gv[0] == crate::pattern::opt_capture_view(g@[0]));
        assert(gv[1] == crate::pattern::opt_capture_view(g@[1]));
        let whole = match &g[0] {
            Some(w) => w,
            None => {
                assert(false);
                return msgs;
            },
        };
        let digits = match &g[1] {
            Some(c) => chars_of(c.text.as_str()),
            None => {
                assert(false);
                return msgs;
            },
        };
        let number = match parse_u32(digits.as_slice()) {
            Some(v) => v,
            None => {
                assert(false);
                return msgs;
            },
        };
        let prop = match ctx.proposal(number) {
            Some(p) => p,
            None => {
                assert(false);
                return msgs;
            },
        };
        proof {
            assert(is_match_of(whole@, match n.value { NodeKind::Text(t) => t@, _ => seq![] }));
        }
        let ghost before = msgs@.map_values(|m: Message| m@);
        let mut more = ref_lint(slug, ctx, n, prop, whole);
        let ghost extra = more@.map_values(|m: Message| m@);
        msgs.append(&mut more);
        assert(msgs@.map_values(|m: Message| m@) =~= before + extra);
        j += 1;
    }
    msgs
}

/// The messages for one reference `whole` in node `n`, to proposal `prop`.
fn ref_lint(slug: &str, ctx: &Context, n: &Node, prop: &Proposal, whole: &crate::pattern::Capture) -> (r: Vec<Message>)
    requires
        ctx.body_wf(),
        node_in_source(ctx, *n),
        n.value matches NodeKind::Text(t) && is_match_of(whole@, t@),
    ensures
        ({
            let level = ctx.annotation_level;
            let w = whole@.text;
            r@.map_values(|m: Message| m@) == match prop.preamble {
                None => seq![
                    lint_message(
                        level,
                        slug@,
                        "unable to read proposal `"@ + w + "`: "@ + prop.error@,
                        seq![ast_snippet_spec(ctx, *n, level, None)],
                        seq![],
                    ),
                ],
                Some(pre) => prefix_messages(ctx, slug@, *n, w, category_of(pre@)),
            }
        }),
{
    let level = ctx.annotation_level();
    let pre = match &prop.preamble {
        None => {
            let title = concat3("unable to read proposal `", whole.text.as_str(), "`: ");
            let title = concat(title.as_str(), prop.error.as_str());
            let snip = ctx.ast_snippet(n, None, None);
            proof {
                reveal_strlit("unable to read proposal `");
                reveal_strlit("`: ");
            }
            let m = message_one(level, slug, title, snip);
            let r = crate::lints::vec1(m);
            assert(r@.map_values(|m: Message| m@) =~= seq![m@]);
            return r;
        },
        Some(p) => p,
    };
    let category: Option<Vec<char>> = match pre.by_name("category") {
        Some(c) => Some(trim_str(c.value())),
        None => None,
    };
    proof {
        reveal_strlit("category");
        assert(category_of(pre@) == match category { Some(c) => Some(c@), None => None::<Seq<char>> });
    }
    prefix_lint(slug, ctx, n, whole, &category)
}

/// The messages for a reference `w` in node `n` to a proposal of the given
/// category: one when `w` lacks the prefix the category calls for.
pub open spec fn prefix_messages(ctx: &Context, slug: Seq<char>, n: Node, w: Seq<char>, category: Option<Seq<char>>) -> Seq<MessageView> {
    let level = ctx.annotation_level;
    let prefix = prefix_for(category);
    if w.len() >= prefix.len() && w.take(prefix.len() as int) == prefix {
        seq![]
    } else {
        let category_msg = match category {
            Some(c) => "with a `category` of `"@ + c + "`"@,
            None => "without a `category`"@,
        };
        let source = ast_lines_spec(ctx, n);
        seq![
            lint_message(
                level,
                slug,
                "references to proposals "@ + category_msg + " must use a prefix of `"@ + prefix + "`"@,
                seq![
                    SnippetView {
                        source,
                        line_start: n.start_line as int,
                        origin: None,
                        fold: true,
                        annotations: annotations_of(
                            level,
                            occurrences(source, w, 0).map_values(|k: int| occurrence_span(source, w, k)),
                        ),
                    },
                ],
                seq![],
            ),
        ]
    }
}

/// The messages for a reference to a proposal of the given category.
fn prefix_lint(slug: &str, ctx: &Context, n: &Node, whole: &crate::pattern::Capture, category: &Option<Vec<char>>) -> (r: Vec<Message>)
    requires
        ctx.body_wf(),
        node_in_source(ctx, *n),
        n.value matches NodeKind::Text(t) && is_match_of(whole@, t@),
    ensures
        r@.map_values(|m: Message| m@) == prefix_messages(
            ctx,
            slug@,
            *n,
            whole@.text,
            match category {
                Some(c) => Some(c@),
                None => None,
            },
        ),
{
    let erc = chars_of("ERC");
    let is_erc = match category {
        Some(c) => chars_eq(c.as_slice(), erc.as_slice()),
        None => false,
    };
    let prefix: &str = if is_erc { "ERC" } else { "EIP" };
    proof {
        reveal_strlit("ERC");
        reveal_strlit("EIP");
    }
    let w = chars_of(whole.text.as_str());
    let p = chars_of(prefix);
    let mut starts = false;
    if w.len() >= p.len() {
        let head = vstd::slice::slice_subrange(w.as_slice(), 0, p.len());
        assert(head@ =~= w@.take(p@.len() as int));
        starts = chars_eq(head, p.as_slice());
    }
    if starts {
        return crate::lints::no_messages();
    }
    let category_msg = match category {
        Some(c) => {
            let c = crate::text::string_of(c.as_slice());
            concat3("with a `category` of `", c.as_str(), "`")
        },
        None => String::from_str("without a `category`"),
    };
    let title = concat3("references to proposals ", category_msg.as_str(), " must use a prefix of `");
    let title = concat3(title.as_str(), prefix, "`");
    proof {
        reveal_strlit("with a `category` of `");
        reveal_strlit("`");
        reveal_strlit("without a `category`");
        reveal_strlit("references to proposals ");
        reveal_strlit(" must use a prefix of `");
    }
    let snip = occurrence_snippet(ctx, n, whole);
    let m = message_one(ctx.annotation_level(), slug, title, snip);
    let r = crate::lints::vec1(m);
    assert(r@.map_values(|m: Message| m@) =~= seq![m@]);
    r
}

/// The folded snippet of a node's lines, with no origin, marking each
/// occurrence of the reference in them.
fn occurrence_snippet(ctx: &Context, n: &Node, whole: &crate::pattern::Capture) -> (r: crate::snippets::Snippet)
    requires
        ctx.body_wf(),
        node_in_source(ctx, *n),
        n.value matches NodeKind::Text(t) && is_match_of(whole@, t@),
    ensures
        ({
            let source = ast_lines_spec(ctx, *n);
            let w = whole@.text;
            r@ == (SnippetView {
                source,
                line_start: n.start_line as int,
                origin: None,
                fold: true,
                annotations: annotations_of(
                    ctx.annotation_level,
                    occurrences(source, w, 0).map_values(|k: int| occurrence_span(source, w, k)),
                ),
            })
        }),
{
    let source = ctx.ast_lines(n);
    proof {
        lemma_ast_lines_blen(ctx, *n);
        if let NodeKind::Text(t) = &n.value {
            let (a, b) = choose|a: int, b: int|
                0 <= a <= b <= t@.len() && #[trigger] blen(t@.take(a)) == whole@.start
                    && #[trigger] blen(t@.take(b)) == whole@.end && whole@.text == t@.subrange(a, b);
            crate::text::lemma_blen_concat(t@.take(a), t@.subrange(a, b));
            assert(t@.take(a) + t@.subrange(a, b) =~= t@.take(b));
            crate::text::lemma_blen_take_mono(t@, b, t@.len() as int);
            assert(t@.take(t@.len() as int) =~= t@);
        }
    }
    let spans = match_spans(source.as_str(), whole.text.as_str());
    let anns = annotations_for(ctx.annotation_level(), &spans);
    let none: Option<String> = None;
    crate::snippets::snippet(source.as_str(), n.start_line, &none, true, anns)
}

/// Annotations of the given byte ranges.
fn annotations_for(level: Level, spans: &Vec<(usize, usize)>) -> (r: Vec<Annotation>)
    ensures
        r@.map_values(|a: Annotation| a@) == annotations_of(level, spans@.map_values(|p: (usize, usize)| (p.0 as int, p.1 as int))),
{
    let mut r: Vec<Annotation> = Vec::new();
    let mut i: usize = 0;
    while i < spans.len()
        invariant
            i <= spans@.len(),
            r@.map_values(|a: Annotation| a@)
                == annotations_of(level, spans@.take(i as int).map_values(|p: (usize, usize)| (p.0 as int, p.1 as int))),
        decreases spans@.len() - i,
    {
        let ghost before = r@.map_values(|a: Annotation| a@);
        let a = span(level, spans[i].0, spans[i].1, None);
        r.push(a);
        assert(spans@.take(i + 1).map_values(|p: (usize, usize)| (p.0 as int, p.1 as int))
            =~= spans@.take(i as int).map_values(|p: (usize, usize)| (p.0 as int, p.1 as int)).push((spans@[i as int].0 as int, spans@[i as int].1 as int)));
        let ghost prev = spans@.take(i as int).map_values(|p: (usize, usize)| (p.0 as int, p.1 as int));
        let ghost q = (spans@[i as int].0 as int, spans@[i as int].1 as int);
        assert(annotations_of(level, prev.push(q)) =~= annotations_of(level, prev).push(a@));
        assert(r@.map_values(|a: Annotation| a@) =~= before.push(a@));
        i += 1;
    }
    assert(spans@.take(spans@.len() as int) =~= spans@);
    r
}

/// A number that a reference names is among the numbers of the first `k`
/// references that contain it.
pub proof fn lemma_reference_numbers_has(refs: Seq<Seq<Option<CaptureView>>>, j: int, k: int)
    requires
        0 <= j < k <= refs.len(),
        reference_number(refs[j]) is Some,
    ensures
        reference_numbers(refs, k).contains(reference_number(refs[j])->0),
    decreases k,
{
    let x = reference_number(refs[j])->0;
    if j < k - 1 {
        lemma_reference_numbers_has(refs, j, k - 1);
        let prev = reference_numbers(refs, k - 1);
        let w = choose|w: int| 0 <= w < prev.len() && prev[w] == x;
        match reference_number(refs[k - 1]) {
            Some(n) => assert(prev.push(n)[w] == x),
            None => {},
        }
    } else {
        let prev = reference_numbers(refs, k - 1);
        assert(prev.push(x)[prev.len() as int] == x);
    }
}

/// A number that a reference of node `i` names is among the numbers of
/// the references of the first `m` nodes, for `i < m`.
pub proof fn lemma_body_numbers_has(ctx: &Context, i: int, j: int, m: int)
    requires
        0 <= i < m <= ctx.body@.len(),
        0 <= j < node_refs(ctx.body@[i]).len(),
        reference_number(node_refs(ctx.body@[i])[j]) is Some,
    ensures
        body_numbers(ctx, m).contains(reference_number(node_refs(ctx.body@[i])[j])->0),
    decreases m,
{
    let x = reference_number(node_refs(ctx.body@[i])[j])->0;
    let refs = node_refs(ctx.body@[m - 1]);
    let prev = body_numbers(ctx, m - 1);
    let here = reference_numbers(refs, refs.len() as int);
    if i < m - 1 {
        lemma_body_numbers_has(ctx, i, j, m - 1);
        let w = choose|w: int| 0 <= w < prev.len() && prev[w] == x;
        assert((prev + here)[w] == x);
    } else {
        lemma_reference_numbers_has(refs, j, refs.len() as int);
        let w = choose|w: int| 0 <= w < here.len() && here[w] == x;
        assert((prev + here)[prev.len() + w] == x);
    }
}

/// Reading the proposals that `find_resources` names is enough for the
/// lint to run: when every reference in the body names a `u32` number and
/// every number the lint asks for was read, the lint admits the proposal.
pub proof fn law_resources_suffice(ctx: &Context)
    requires
        forall|i: int, j: int|
            0 <= i < ctx.body@.len() && 0 <= j < node_refs(ctx.body@[i]).len()
                ==> #[trigger] reference_number(node_refs(ctx.body@[i])[j]) is Some,
        forall|k: int|
            0 <= k < ProposalRef.wanted(ctx).len() ==> find_proposal(ctx.proposals@, #[trigger] ProposalRef.wanted(ctx)[k] as u32) is Some,
    ensures
        ProposalRef.admits(ctx),
{
    if regex_compiles(reference_pattern()) {
        assert forall|i: int, j: int|
            0 <= i < ctx.body@.len() && 0 <= j < node_refs(ctx.body@[i]).len() implies #[trigger] reference_read(
            node_refs(ctx.body@[i])[j],
            ctx.proposals@,
        ) by {
            assert(reference_number(node_refs(ctx.body@[i])[j]) is Some);
            lemma_body_numbers_has(ctx, i, j, ctx.body@.len() as int);
            let w = choose|w: int|
                0 <= w < ProposalRef.wanted(ctx).len() && ProposalRef.wanted(ctx)[w] == reference_number(node_refs(ctx.body@[i])[j])->0;
            assert(find_proposal(ctx.proposals@, ProposalRef.wanted(ctx)[w] as u32) is Some);
        }
    }
}

/// The messages for the references of node `n`, reference by reference.
pub open spec fn messages_of_node(ctx: &Context, slug: Seq<char>, n: Node) -> Seq<MessageView> {
    Seq::new(node_refs(n).len(), |j: int| ref_messages(ctx, slug, n, node_refs(n)[j])).flatten()
}

/// The messages for the first `k` references of node `n` are those of each
/// reference in turn.
proof fn lemma_node_messages_flatten(ctx: &Context, slug: Seq<char>, n: Node, k: int)
    requires
        0 <= k <= node_refs(n).len(),
    ensures
        node_messages(ctx, slug, n, k) == Seq::new(k as nat, |j: int| ref_messages(ctx, slug, n, node_refs(n)[j])).flatten(),
    decreases k,
{
    let parts = Seq::new(k as nat, |j: int| ref_messages(ctx, slug, n, node_refs(n)[j]));
    parts.lemma_flatten_and_flatten_alt_are_equivalent();
    if k > 0 {
        lemma_node_messages_flatten(ctx, slug, n, k - 1);
        let prev = Seq::new((k - 1) as nat, |j: int| ref_messages(ctx, slug, n, node_refs(n)[j]));
        prev.lemma_flatten_and_flatten_alt_are_equivalent();
        assert(parts.drop_last() =~= prev);
    } else {
        assert(parts =~= Seq::<Seq<MessageView>>::empty());
    }
}

/// The messages for the first `i` nodes are those of each node in turn.
proof fn lemma_body_messages_flatten(ctx: &Context, slug: Seq<char>, i: int)
    requires
        0 <= i <= ctx.body@.len(),
    ensures
        body_messages(ctx, slug, i) == Seq::new(i as nat, |m: int| messages_of_node(ctx, slug, ctx.body@[m])).flatten(),
    decreases i,
{
    let parts = Seq::new(i as nat, |m: int| messages_of_node(ctx, slug, ctx.body@[m]));
    parts.lemma_flatten_and_flatten_alt_are_equivalent();
    if i > 0 {
        lemma_body_messages_flatten(ctx, slug, i - 1);
        let prev = Seq::new((i - 1) as nat, |m: int| messages_of_node(ctx, slug, ctx.body@[m]));
        prev.lemma_flatten_and_flatten_alt_are_equivalent();
        assert(parts.drop_last() =~= prev);
        let n = ctx.body@[i - 1];
        lemma_node_messages_flatten(ctx, slug, n, node_refs(n).len() as int);
    } else {
        assert(parts =~= Seq::<Seq<MessageView>>::empty());
    }
}

/// Once the pattern compiles, the lint raises, node by node in document
/// order and reference by reference within a node, the messages of every
/// reference, wherever it stands, and no other.
pub proof fn law_proposal_ref_body_exact(lint: ProposalRef, slug: Seq<char>, ctx: &Context)
    ensures
        regex_compiles(reference_pattern()) ==> lint.spec_lint(slug, ctx) == Ok::<Seq<MessageView>, Seq<char>>(
            Seq::new(ctx.body@.len(), |m: int| messages_of_node(ctx, slug, ctx.body@[m])).flatten(),
        ),
{
    lemma_body_messages_flatten(ctx, slug, ctx.body@.len() as int);
}

} // verus!
