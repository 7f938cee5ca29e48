//! The first mention of something that matches a pattern must be a link.

use vstd::prelude::*;

use crate::lints::markdown::{ast_lines_spec, lemma_ast_lines_blen, node_in_source};
use crate::lints::{lint_message, new_message, result_view, strings_view, vec1, Context, Error};
use crate::pattern::{
    captures, compile, find, groups_of, groups_view, is_match_of, regex_captures, regex_compiles, regex_error,
    regex_first, Capture, CaptureView, Pattern,
};
use crate::preamble::{find_field, FieldView};
use crate::search::{match_spans, occurrence_span, occurrences};
use crate::snippets::{footer, span, AnnotationView, Footer, FooterView, Level, Message, MessageView, SnippetView};
use crate::text::{blen, chars_of, concat3, parse_u32, parse_unsigned, str_eq, trim, trim_str};
use crate::tree::{ancestry, in_image, in_link, Node, NodeKind};

verus! {

/// Text that matches the pattern must appear in a link before it appears
/// outside of one; a match that names this proposal's own number (in
/// group 1) is exempt.
#[derive(Debug, Clone)]
pub struct LinkFirst(pub String);

/// This proposal's number: its trimmed `eip` header, as a `u32`.
pub open spec fn own_number(fields: Seq<FieldView>) -> Option<nat> {
    match find_field(fields, "eip"@) {
        Some(f) => parse_unsigned(trim(f.value), u32::MAX as int),
        None => None,
    }
}

/// The text the lint checks at node `i`, if any: text outside links, and
/// the names of footnotes; nothing under an image.
pub open spec fn checked_text(b: Seq<Node>, i: int) -> Option<Seq<char>> {
    if in_image(b, i) {
        None
    } else {
        match b[i].value {
            NodeKind::Text(t) => if in_link(b, i) { None } else { Some(t@) },
            NodeKind::FootnoteDefinition(name) => Some(name@),
            NodeKind::FootnoteReference(name) => Some(name@),
            _ => None,
        }
    }
}

/// The text the lint records as linked at node `i`, if any: the first
/// match of the pattern in text under a link (and not under an image).
pub open spec fn linked_text(pattern: Seq<char>, b: Seq<Node>, i: int) -> Option<Seq<char>> {
    if in_image(b, i) {
        None
    } else {
        match b[i].value {
            NodeKind::Text(t) => if in_link(b, i) {
                match regex_first(pattern, t@) {
                    Some(m) => Some(m.text),
                    None => None,
                }
            } else {
                None
            },
            _ => None,
        }
    }
}

/// A match names this proposal's own number in group 1.
pub open spec fn self_reference(own: Option<nat>, g: Seq<Option<CaptureView>>) -> bool {
    match own {
        None => false,
        Some(o) => match parse_unsigned(g[1]->0.text, u32::MAX as int) {
            Some(v) => v == o,
            None => false,
        },
    }
}

/// Every match of the pattern in the text checked at node `i` has a
/// group 1.
pub open spec fn groups_present(pattern: Seq<char>, b: Seq<Node>, i: int) -> bool {
    match checked_text(b, i) {
        Some(t) => forall|k: int|
            0 <= k < regex_captures(pattern, t).len() ==> (#[trigger] regex_captures(pattern, t)[k]).len() > 1
                && regex_captures(pattern, t)[k][1] is Some,
        None => true,
    }
}

/// The byte offset of the first occurrence of `text` in `source`.
pub open spec fn first_offset(source: Seq<char>, text: Seq<char>) -> Option<int> {
    let o = occurrences(source, text, 0);
    if o.len() > 0 {
        Some(occurrence_span(source, text, o[0]).0)
    } else {
        None
    }
}

/// What scanning the nodes gives: the messages so far, and the texts
/// found in links so far.
#[verifier::ext_equal]
pub struct FirstScan {
    pub msgs: Seq<MessageView>,
    pub linked: Set<Seq<char>>,
}

impl LinkFirst {
    /// The message for the match `m` of the pattern in `text`, checked at
    /// node `n`: it shows the node's lines and marks the match, placed
    /// after the first occurrence of `text` in them, if there is one.
    pub open spec fn match_message(&self, ctx: &Context, slug: Seq<char>, n: Node, text: Seq<char>, m: CaptureView) -> MessageView {
        let source = ast_lines_spec(ctx, n);
        lint_message(
            ctx.annotation_level,
            slug,
            "the first match of the given pattern must be a link"@,
            seq![
                SnippetView {
                    source,
                    line_start: n.start_line as int,
                    origin: None,
                    fold: true,
                    annotations: match first_offset(source, text) {
                        None => seq![],
                        Some(off) => seq![
                            AnnotationView { level: ctx.annotation_level, start: off + m.start, end: off + m.end, label: None },
                        ],
                    },
                },
            ],
            seq![FooterView { level: Level::Info, title: "the pattern in question: `"@ + self.0@ + "`"@ }],
        )
    }

    /// The messages for the first `k` matches of the pattern in `text`:
    /// one for each that neither names this proposal nor was found in a
    /// link before.
    pub open spec fn match_messages(
        &self,
        ctx: &Context,
        slug: Seq<char>,
        n: Node,
        text: Seq<char>,
        linked: Set<Seq<char>>,
        k: int,
    ) -> Seq<MessageView>
        decreases k,
    {
        if k <= 0 {
            seq![]
        } else {
            let prev = self.match_messages(ctx, slug, n, text, linked, k - 1);
            let g = regex_captures(self.0@, text)[k - 1];
            if self_reference(own_number(ctx.preamble@), g) || linked.contains(g[0]->0.text) {
                prev
            } else {
                prev.push(self.match_message(ctx, slug, n, text, g[0]->0))
            }
        }
    }

    /// The outcome of scanning the first `k` nodes.
    pub open spec fn scan_spec(&self, ctx: &Context, slug: Seq<char>, k: int) -> FirstScan
        decreases k,
    {
        if k <= 0 {
            FirstScan { msgs: seq![], linked: Set::empty() }
        } else {
            let p = self.scan_spec(ctx, slug, k - 1);
            let b = ctx.body@;
            match checked_text(b, k - 1) {
                Some(t) => FirstScan {
                    msgs: p.msgs + self.match_messages(ctx, slug, b[k - 1], t, p.linked, regex_captures(self.0@, t).len() as int),
                    ..p
                },
                None => match linked_text(self.0@, b, k - 1) {
                    Some(x) => FirstScan { linked: p.linked.insert(x), ..p },
                    None => p,
                },
            }
        }
    }

    /// When this proposal has a number, every match in a checked text has
    /// a group 1.
    pub open spec fn admits(&self, ctx: &Context) -> bool {
        regex_compiles(self.0@) && own_number(ctx.preamble@) is Some ==> forall|i: int|
            0 <= i < ctx.body@.len() ==> #[trigger] groups_present(self.0@, ctx.body@, i)
    }

    /// An error when the pattern does not compile; otherwise, in document
    /// order, a message for each match of the pattern in text outside
    /// links (and in footnote names) that was not found in a link before
    /// and does not name this proposal.
    pub open spec fn spec_lint(&self, slug: Seq<char>, ctx: &Context) -> Result<Seq<MessageView>, Seq<char>> {
        if !regex_compiles(self.0@) {
            Err(regex_error(self.0@))
        } else {
            Ok(self.scan_spec(ctx, slug, ctx.body@.len() as int).msgs)
        }
    }

    /// The lint, where every checked match has a group 1 when this
    /// proposal has a number.
    pub fn lint(&self, slug: &str, ctx: &Context) -> (r: Result<Vec<Message>, Error>)
        requires
            ctx.body_wf(),
            self.admits(ctx),
        ensures
            result_view(r) == self.spec_lint(slug@, ctx),
    {
        let re = match compile(self.0.as_str()) {
            Ok(re) => re,
            Err(message) => return Err(Error::Custom { message }),
        };
        let own = own_number_of(ctx);
        let mut msgs: Vec<Message> = Vec::new();
        let mut linked: Vec<String> = Vec::new();
        let mut i: usize = 0;
        assert(strings_view(linked@).to_set() =~= Set::<Seq<char>>::empty());
        while i < ctx.body.len()
            invariant
                ctx.body_wf(),
                self.admits(ctx),
                re@ == self.0@,
                regex_compiles(self.0@),
                opt_nat(own) == own_number(ctx.preamble@),
                i <= ctx.body@.len(),
                msgs@.map_values(|m: Message| m@) == self.scan_spec(ctx, slug@, i as int).msgs,
                strings_view(linked@).to_set() == self.scan_spec(ctx, slug@, i as int).linked,
            decreases ctx.body@.len() - i,
        {
            let n = &ctx.body[i];
            assert(node_in_source(ctx, ctx.body@[i as int]));
            let (under_link, under_image) = ancestry(&ctx.body, i);
            let checked: Option<&String> = if under_image {
                None
            } else {
                match &n.value {
                    NodeKind::Text(t) => if under_link { None } else { Some(t) },
                    NodeKind::FootnoteDefinition(name) => Some(name),
                    NodeKind::FootnoteReference(name) => Some(name),
                    _ => None,
                }
            };
            assert(checked_text(ctx.body@, i as int) == match checked { Some(t) => Some(t@), None => None::<Seq<char>> });
            match checked {
                Some(t) => {
                    assert(own is Some ==> groups_present(self.0@, ctx.body@, i as int));
                    let mut more = self.check_text(slug, ctx, &re, n, t.as_str(), &linked, own);
                    let ghost before = msgs@.map_values(|m: Message| m@);
                    let ghost extra = more@.map_values(|m: Message| m@);
                    msgs.append(&mut more);
                    assert(msgs@.map_values(|m: Message| m@) =~= before + extra);
                },
                None => {
                    if !under_image {
                        if let NodeKind::Text(t) = &n.value {
                            if under_link {
                                if let Some(m) = find(&re, t.as_str()) {
                                    let ghost before = strings_view(linked@);
                                    linked.push(m.text);
                                    assert(strings_view(linked@) =~= before.push(m.text@));
                                    proof {
                                        before.lemma_push_to_set_commute(m.text@);
                                    }
                                }
                            }
                        }
                    }
                },
            }
            i += 1;
        }
        Ok(msgs)
    }

    /// The lint, or none when it does not admit the proposal.
    pub fn check(&self, slug: &str, ctx: &Context) -> (r: Option<Result<Vec<Message>, Error>>)
        requires
            ctx.body_wf(),
        ensures
            r is None <==> !self.admits(ctx),
            r matches Some(x) ==> result_view(x) == self.spec_lint(slug@, ctx),
    {
        let re = match compile(self.0.as_str()) {
            Ok(re) => re,
            Err(_) => return Some(self.lint(slug, ctx)),
        };
        if own_number_of(ctx).is_none() {
            return Some(self.lint(slug, ctx));
        }
        let mut i: usize = 0;
        while i < ctx.body.len()
            invariant
                re@ == self.0@,
                regex_compiles(self.0@),
                own_number(ctx.preamble@) is Some,
                i <= ctx.body@.len(),
                forall|a: int| 0 <= a < i ==> #[trigger] groups_present(self.0@, ctx.body@, a),
            decreases ctx.body@.len() - i,
        {
            let n = &ctx.body[i];
            let (under_link, under_image) = ancestry(&ctx.body, i);
            let checked: Option<&String> = if under_image {
                None
            } else {
                match &n.value {
                    NodeKind::Text(t) => if under_link { None } else { Some(t) },
                    NodeKind::FootnoteDefinition(name) => Some(name),
                    NodeKind::FootnoteReference(name) => Some(name),
                    _ => None,
                }
            };
            assert(checked_text(ctx.body@, i as int) == match checked { Some(t) => Some(t@), None => None::<Seq<char>> });
            if let Some(t) = checked {
                let caps = captures(&re, t.as_str());
                let mut k: usize = 0;
                while k < caps.len()
                    invariant
                        checked_text(ctx.body@, i as int) == Some(t@),
                        regex_compiles(self.0@),
                        own_number(ctx.preamble@) is Some,
                        i < ctx.body@.len(),
                        k <= caps@.len(),
                        caps@.len() == regex_captures(self.0@, t@).len(),
                        forall|j: int| 0 <= j < caps@.len() ==> groups_view(#[trigger] caps@[j]@) == regex_captures(self.0@, t@)[j],
                        forall|j: int| 0 <= j < k ==> {
                            let g = #[trigger] regex_captures(self.0@, t@)[j];
                            g.len() > 1 && g[1] is Some
                        },
                    decreases caps@.len() - k,
                {
                    assert(groups_view(caps@[k as int]@) == regex_captures(self.0@, t@)[k as int]);
                    assert(groups_view(caps@[k as int]@).len() == caps@[k as int]@.len());
                    if caps[k].len() < 2 {
                        assert(regex_captures(self.0@, t@)[k as int].len() < 2);
                        assert(!groups_present(self.0@, ctx.body@, i as int));
                        return None;
                    }
                    assert(regex_captures(self.0@, t@)[k as int][1] == crate::pattern::opt_capture_view(caps@[k as int]@[1]));
                    if caps[k][1].is_none() {
                        assert(!groups_present(self.0@, ctx.body@, i as int));
                        return None;
                    }
                    k += 1;
                }
            }
            assert(groups_present(self.0@, ctx.body@, i as int));
            i += 1;
        }
        Some(self.lint(slug, ctx))
    }

    /// The messages for the matches of the pattern in `text`, checked at
    /// node `n`.
    fn check_text(
        &self,
        slug: &str,
        ctx: &Context,
        re: &Pattern,
        n: &Node,
        text: &str,
        linked: &Vec<String>,
        own: Option<u32>,
    ) -> (r: Vec<Message>)
        requires
            ctx.body_wf(),
            node_in_source(ctx, *n),
            re@ == self.0@,
            opt_nat(own) == own_number(ctx.preamble@),
            blen(text@) <= crate::preamble::text_bound(),
            own is Some ==> forall|k: int|
                0 <= k < regex_captures(self.0@, text@).len() ==> (#[trigger] regex_captures(self.0@, text@)[k]).len() > 1
                    && regex_captures(self.0@, text@)[k][1] is Some,
        ensures
            r@.map_values(|m: Message| m@) == self.match_messages(
                ctx,
                slug@,
                *n,
                text@,
                strings_view(linked@).to_set(),
                regex_captures(self.0@, text@).len() as int,
            ),
    {
        let source = ctx.ast_lines(n);
        proof {
            lemma_ast_lines_blen(ctx, *n);
        }
        let spans = match_spans(source.as_str(), text);
        let offset: Option<usize> = if spans.len() > 0 { Some(spans[0].0) } else { None };
        proof {
            let o = occurrences(source@, text@, 0);
            assert(spans@.map_values(|p: (usize, usize)| (p.0 as int, p.1 as int)).len() == o.map_values(|k: int| occurrence_span(source@, text@, k)).len());
            if spans@.len() > 0 {
                assert(spans@.map_values(|p: (usize, usize)| (p.0 as int, p.1 as int))[0] == o.map_values(|k: int| occurrence_span(source@, text@, k))[0]);
            }
            assert(first_offset(source@, text@) == match offset { Some(v) => Some(v as int), None => None::<int> });
            if let Some(v) = offset {
                crate::search::lemma_occurrences_in(source@, text@, 0);
                crate::text::lemma_blen_take_mono(source@, o[0], source@.len() as int);
                assert(source@.take(source@.len() as int) =~= source@);
            }
        }
        let caps = captures(re, text);
        let ghost scaps = regex_captures(self.0@, text@);
        let ghost lset = strings_view(linked@).to_set();
        let mut msgs: Vec<Message> = Vec::new();
        let mut k: usize = 0;
        while k < caps.len()
            invariant
                ctx.body_wf(),
                node_in_source(ctx, *n),
                source@ == ast_lines_spec(ctx, *n),
                blen(source@) <= crate::preamble::text_bound(),
                blen(text@) <= crate::preamble::text_bound(),
                first_offset(source@, text@) == match offset { Some(v) => Some(v as int), None => None::<int> },
                offset matches Some(v) ==> v <= blen(source@),
                opt_nat(own) == own_number(ctx.preamble@),
                lset == strings_view(linked@).to_set(),
                scaps == regex_captures(self.0@, text@),
                own is Some ==> forall|j: int| 0 <= j < scaps.len() ==> (#[trigger] scaps[j]).len() > 1 && scaps[j][1] is Some,
                caps@.len() == scaps.len(),
                forall|j: int| 0 <= j < caps@.len() ==> groups_view(#[trigger] caps@[j]@) == scaps[j],
                forall|j: int|
                    #![trigger scaps[j]]
                    0 <= j < caps@.len() ==> {
                        &&& scaps[j].len() >= 1
                        &&& scaps[j][0] is Some
                        &&& groups_of(scaps[j], text@)
                    },
                k <= caps@.len(),
                msgs@.map_values(|m: Message| m@) == self.match_messages(ctx, slug@, *n, text@, lset, k as int),
            decreases caps@.len() - k,
        {
            let g = &caps[k];
            let ghost gv = scaps[k as int];
            assert(groups_view(g@) == gv);
            assert(gv[0] == crate::pattern::opt_capture_view(g@[0]));
            let whole = match &g[0] {
                Some(w) => w,
                None => {
                    assert(false);
                    return msgs;
                },
            };
            let is_self = match own {
                None => false,
                Some(o) => {
                    assert(gv[1] == crate::pattern::opt_capture_view(g@[1]));
                    match &g[1] {
                        None => {
                            assert(false);
                            false
                        },
                        Some(c) => {
                            let digits = chars_of(c.text.as_str());
                            match parse_u32(digits.as_slice()) {
                                Some(v) => v == o,
                                None => false,
                            }
                        },
                    }
                },
            };
            assert(is_self == self_reference(own_number(ctx.preamble@), gv));
            let seen = contains_string(linked, whole.text.as_str());
            if !is_self && !seen {
                proof {
                    assert(is_match_of(whole@, text@));
                    let (a, b) = choose|a: int, b: int|
                        0 <= a <= b <= text@.len() && #[trigger] blen(text@.take(a)) == whole@.start
                            && #[trigger] blen(text@.take(b)) == whole@.end && whole@.text == text@.subrange(a, b);
                    crate::text::lemma_blen_take_mono(text@, a, b);
                    crate::text::lemma_blen_take_mono(text@, b, text@.len() as int);
                    assert(text@.take(text@.len() as int) =~= text@);
                }
                let m = self.match_message_of(slug, ctx, n, source.as_str(), offset, whole);
                let ghost before = msgs@.map_values(|m: Message| m@);
                msgs.push(m);
                assert(msgs@.map_values(|m: Message| m@) =~= before.push(m@));
            }
            k += 1;
        }
        msgs
    }

    /// The message for one match.
    fn match_message_of(
        &self,
        slug: &str,
        ctx: &Context,
        n: &Node,
        source: &str,
        offset: Option<usize>,
        whole: &Capture,
    ) -> (r: Message)
        requires
            source@ == ast_lines_spec(ctx, *n),
            offset matches Some(v) ==> v <= crate::preamble::text_bound(),
            whole.start <= whole.end <= crate::preamble::text_bound(),
        ensures
            ({
                let src = ast_lines_spec(ctx, *n);
                r@ == lint_message(
                    ctx.annotation_level,
                    slug@,
                    "the first match of the given pattern must be a link"@,
                    seq![
                        SnippetView {
                            source: src,
                            line_start: n.start_line as int,
                            origin: None,
                            fold: true,
                            annotations: match offset {
                                None => seq![],
                                Some(off) => seq![
                                    AnnotationView {
                                        level: ctx.annotation_level,
                                        start: off + whole@.start,
                                        end: off + whole@.end,
                                        label: None,
                                    },
                                ],
                            },
                        },
                    ],
                    seq![FooterView { level: Level::Info, title: "the pattern in question: `"@ + self.0@ + "`"@ }],
                )
            }),
    {
        let mut anns: Vec<crate::snippets::Annotation> = Vec::new();
        if let Some(off) = offset {
            let a = span(ctx.annotation_level(), off + whole.start, off + whole.end, None);
            anns.push(a);
        }
        let ghost av = anns@.map_values(|a: crate::snippets::Annotation| a@);
        let none: Option<String> = None;
        let snip = crate::snippets::snippet(source, n.start_line, &none, true, anns);
        let ghost sv = snip@;
        let foot = footer(Level::Info, concat3("the pattern in question: `", self.0.as_str(), "`"));
        let ghost fv = foot@;
        let m = new_message(
            ctx.annotation_level(),
            slug,
            String::from_str("the first match of the given pattern must be a link"),
            vec1(snip),
            vec1(foot),
        );
        proof {
            reveal_strlit("the first match of the given pattern must be a link");
            reveal_strlit("the pattern in question: `");
            reveal_strlit("`");
            assert(m@.snippets =~= seq![sv]);
            assert(m@.footers =~= seq![fv]);
            match offset {
                None => assert(av =~= seq![]),
                Some(off) => assert(av =~= seq![AnnotationView {
                    level: ctx.annotation_level,
                    start: off + whole@.start,
                    end: off + whole@.end,
                    label: None,
                }]),
            }
        }
        m
    }
}

/// An optional `u32` as an optional `nat`.
pub open spec fn opt_nat(o: Option<u32>) -> Option<nat> {
    match o {
        Some(v) => Some(v as nat),
        None => None,
    }
}

/// This proposal's number.
fn own_number_of(ctx: &Context) -> (r: Option<u32>)
    ensures
        opt_nat(r) == own_number(ctx.preamble@),
{
    proof {
        reveal_strlit("eip");
    }
    match ctx.preamble().by_name("eip") {
        Some(f) => parse_u32(trim_str(f.value()).as_slice()),
        None => None,
    }
}

/// Whether one of the strings is `s`.
fn contains_string(v: &Vec<String>, s: &str) -> (r: bool)
    ensures
        r == strings_view(v@).to_set().contains(s@),
{
    let mut i: usize = 0;
    while i < v.len()
        invariant
            i <= v@.len(),
            forall|j: int| 0 <= j < i ==> v@[j]@ != s@,
        decreases v@.len() - i,
    {
        if str_eq(v[i].as_str(), s) {
            assert(strings_view(v@)[i as int] == s@);
            assert(strings_view(v@).contains(s@));
            return true;
        }
        i += 1;
    }
    assert forall|j: int| 0 <= j < strings_view(v@).len() implies strings_view(v@)[j] != s@ by {
        assert(strings_view(v@)[j] == v@[j]@);
    }
    false
}

} // verus!
