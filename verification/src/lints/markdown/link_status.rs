//! A proposal may only link to proposals at least as advanced as itself.

use vstd::prelude::*;

use crate::collate::sorted_of;
use crate::lints::markdown::{line_spec, node_in_source};
use crate::lints::preamble::requires_status::{choice_set, flow_choices, flow_tier, flow_view, status_tier};
use crate::lints::{find_proposal, join, join_strings, lint_message, new_message, result_view, vec1, Context, Error, Proposal};
use crate::pattern::{
    captures, compile, escape, escaped, groups_view, regex_captures, regex_compiles, regex_error, Pattern,
};
use crate::preamble::{find_field, FieldView, Preamble};
use crate::snippets::{footer, Footer, FooterView, Level, Message, MessageView, SnippetView};
use crate::text::{chars_of, concat3, concat5, parse_u32, parse_unsigned, string_of, trim, trim_str};
use crate::tree::{Node, NodeKind};

verus! {

/// Links to proposals (`prefix`, a number, `suffix`, at the end of the
/// link's address) must reach proposals whose `status` is at least as
/// advanced, in the tiers of `flow`, as this one's.
#[derive(Debug, Clone)]
pub struct LinkStatus {
    pub status: String,
    /// Status values from least to most advanced; values in one tier are
    /// equally advanced.
    pub flow: Vec<Vec<String>>,
    pub prefix: String,
    pub suffix: String,
}

/// What scanning the links gives: the messages so far, and the lowest
/// tier among the proposals read so far.
#[verifier::ext_equal]
pub struct LinkScan {
    pub msgs: Seq<MessageView>,
    pub min: int,
}

impl LinkStatus {
    pub open spec fn flow_spec(&self) -> Seq<Seq<Seq<char>>> {
        flow_view(self.flow@)
    }

    /// The pattern of a link to a proposal: the escaped prefix, a number,
    /// and the escaped suffix at the end, in any case.
    pub open spec fn pattern_spec(&self) -> Seq<char> {
        "(?i)"@ + escaped(self.prefix@) + "([0-9]+)"@ + escaped(self.suffix@) + "$"@
    }

    /// The digits of the proposal number a node links to, if it is a link
    /// whose address matches the pattern.
    pub open spec fn link_digits(&self, n: Node) -> Option<Seq<char>> {
        match n.value {
            NodeKind::Link { url, title } => {
                let caps = regex_captures(self.pattern_spec(), url@);
                if caps.len() > 0 && caps[0].len() > 1 && caps[0][1] is Some {
                    Some(caps[0][1]->0.text)
                } else {
                    None
                }
            },
            _ => None,
        }
    }

    /// The number a node links to, as a `u32`.
    pub open spec fn link_number(&self, n: Node) -> Option<nat> {
        match self.link_digits(n) {
            Some(d) => parse_unsigned(d, u32::MAX as int),
            None => None,
        }
    }

    /// Every link to a proposal names a `u32` number whose proposal was
    /// read.
    pub open spec fn admits(&self, ctx: &Context) -> bool {
        regex_compiles(self.pattern_spec()) ==> forall|i: int|
            0 <= i < ctx.body@.len() && #[trigger] self.link_digits(ctx.body@[i]) is Some ==> {
                &&& self.link_number(ctx.body@[i]) is Some
                &&& find_proposal(ctx.proposals@, self.link_number(ctx.body@[i])->0 as u32) is Some
            }
    }

    /// The numbers that the links of the first `k` nodes name (as `u32`),
    /// in order.
    pub open spec fn numbers_upto(&self, ctx: &Context, k: int) -> Seq<nat>
        decreases k,
    {
        if k <= 0 {
            seq![]
        } else {
            let prev = self.numbers_upto(ctx, k - 1);
            match self.link_number(ctx.body@[k - 1]) {
                Some(v) => prev.push(v),
                None => prev,
            }
        }
    }

    /// The numbers of the proposals the lint reads; none when the pattern
    /// does not compile.
    pub open spec fn wanted(&self, ctx: &Context) -> Seq<nat> {
        if !regex_compiles(self.pattern_spec()) {
            seq![]
        } else {
            self.numbers_upto(ctx, ctx.body@.len() as int)
        }
    }

    /// The trimmed value of a `status` header, or `<missing>`.
    pub open spec fn status_text(&self, fields: Seq<FieldView>) -> Seq<char> {
        match find_field(fields, self.status@) {
            Some(s) => trim(s.value),
            None => "<missing>"@,
        }
    }

    /// The message for a link on line `line` to the file `path`, whose
    /// proposal's tier is below this one's; `min` is the lowest tier read so
    /// far, this one's included.
    pub open spec fn unstable_message(&self, ctx: &Context, slug: Seq<char>, line: int, path: Seq<char>, min: int) -> MessageView {
        let choices = join(sorted_of(choice_set(self.flow_spec(), min)), "`, `"@);
        lint_message(
            ctx.annotation_level,
            slug,
            "proposal `"@ + path + "` is not stable enough for a `"@ + self.status@ + "` of `"@
                + self.status_text(ctx.preamble@) + "`"@,
            seq![line_snippet(ctx, line)],
            if choices.len() == 0 {
                seq![]
            } else {
                seq![
                    FooterView {
                        level: Level::Help,
                        title: "because of this link, this proposal's `"@ + self.status@ + "` must be one of: `"@
                            + choices + "`"@,
                    },
                ]
            },
        )
    }

    /// The outcome of scanning the first `k` nodes.
    pub open spec fn scan_spec(&self, ctx: &Context, slug: Seq<char>, my_tier: nat, k: int) -> LinkScan
        decreases k,
    {
        if k <= 0 {
            LinkScan { msgs: seq![], min: usize::MAX as int }
        } else {
            let p = self.scan_spec(ctx, slug, my_tier, k - 1);
            let n = ctx.body@[k - 1];
            match self.link_digits(n) {
                None => p,
                Some(d) => {
                    let path = self.prefix@ + d + self.suffix@;
                    let prop = find_proposal(ctx.proposals@, self.link_number(n)->0 as u32)->0;
                    match prop.preamble {
                        None => LinkScan {
                            msgs: p.msgs.push(
                                lint_message(
                                    ctx.annotation_level,
                                    slug,
                                    "unable to read file `"@ + path + "`: "@ + prop.error@,
                                    seq![line_snippet(ctx, n.start_line as int)],
                                    seq![],
                                ),
                            ),
                            ..p
                        },
                        Some(pre) => {
                            let theirs = status_tier(self.flow_spec(), self.status@, pre@);
                            let min = if theirs < p.min { theirs as int } else { p.min };
                            if theirs >= my_tier {
                                LinkScan { min, ..p }
                            } else {
                                LinkScan {
                                    msgs: p.msgs.push(self.unstable_message(ctx, slug, n.start_line as int, path, min)),
                                    min,
                                }
                            }
                        },
                    }
                },
            }
        }
    }

    /// An error when the pattern does not compile; otherwise, for each link
    /// to a proposal in turn, a message when the proposal could not be read,
    /// or when its status tier is lower than this proposal's, with a footer
    /// naming, in order, the status values whose tier is at most the lowest
    /// tier of the proposals read so far.
    pub open spec fn spec_lint(&self, slug: Seq<char>, ctx: &Context) -> Result<Seq<MessageView>, Seq<char>> {
        if !regex_compiles(self.pattern_spec()) {
            Err(regex_error(self.pattern_spec()))
        } else {
            let my_tier = status_tier(self.flow_spec(), self.status@, ctx.preamble@);
            Ok(self.scan_spec(ctx, slug, my_tier, ctx.body@.len() as int).msgs)
        }
    }

    /// Compiles the pattern of a link to a proposal.
    pub fn regex(&self) -> (r: Result<Pattern, String>)
        ensures
            r is Ok <==> regex_compiles(self.pattern_spec()),
            r matches Ok(p) ==> p@ == self.pattern_spec(),
            r matches Err(e) ==> e@ == regex_error(self.pattern_spec()),
    {
        let prefix = escape(self.prefix.as_str());
        let suffix = escape(self.suffix.as_str());
        let head = concat3("(?i)", prefix.as_str(), "([0-9]+)");
        let pattern = concat3(head.as_str(), suffix.as_str(), "$");
        proof {
            reveal_strlit("(?i)");
            reveal_strlit("([0-9]+)");
            reveal_strlit("$");
        }
        compile(pattern.as_str())
    }

    /// The digits a node links to.
    fn digits_of(&self, re: &Pattern, n: &Node) -> (r: Option<String>)
        requires
            re@ == self.pattern_spec(),
        ensures
            match r {
                Some(d) => self.link_digits(*n) == Some(d@),
                None => self.link_digits(*n) is None,
            },
    {
        if let NodeKind::Link { url, title } = &n.value {
            let caps = captures(re, url.as_str());
            if caps.len() == 0 {
                return None;
            }
            let g = &caps[0];
            assert(groups_view(g@) == regex_captures(self.pattern_spec(), url@)[0]);
            if g.len() < 2 {
                return None;
            }
            assert(regex_captures(self.pattern_spec(), url@)[0][1] == crate::pattern::opt_capture_view(g@[1]));
            match &g[1] {
                Some(c) => Some(c.text.clone()),
                None => None,
            }
        } else {
            None
        }
    }

    /// The number a node links to, as a `u32`.
    fn number_of(&self, re: &Pattern, n: &Node) -> (r: Option<(String, u32)>)
        requires
            re@ == self.pattern_spec(),
        ensures
            match r {
                Some((d, v)) => self.link_digits(*n) == Some(d@) && self.link_number(*n) == Some(v as nat),
                None => self.link_number(*n) is None,
            },
    {
        let d = match self.digits_of(re, n) {
            Some(d) => d,
            None => return None,
        };
        let c = chars_of(d.as_str());
        match parse_u32(c.as_slice()) {
            Some(v) => Some((d, v)),
            None => None,
        }
    }

    /// The numbers of the proposals the lint reads.
    pub fn find_resources(&self, ctx: &Context) -> (r: Vec<u32>)
        ensures
            r@.map_values(|n: u32| n as nat) == self.wanted(ctx),
    {
        let mut r: Vec<u32> = Vec::new();
        let re = match self.regex() {
            Ok(re) => re,
            Err(_) => {
                assert(r@.map_values(|n: u32| n as nat) =~= self.wanted(ctx));
                return r;
            },
        };
        let mut i: usize = 0;
        assert(r@.map_values(|n: u32| n as nat) =~= self.numbers_upto(ctx, 0));
        while i < ctx.body.len()
            invariant
                re@ == self.pattern_spec(),
                i <= ctx.body@.len(),
                r@.map_values(|n: u32| n as nat) == self.numbers_upto(ctx, i as int),
            decreases ctx.body@.len() - i,
        {
            if let Some((_, v)) = self.number_of(&re, &ctx.body[i]) {
                r.push(v);
            }
            assert(r@.map_values(|n: u32| n as nat) =~= self.numbers_upto(ctx, i + 1));
            i += 1;
        }
        r
    }

    /// The lint, or none when a link names no proposal that was read.
    pub fn check(&self, slug: &str, ctx: &Context) -> (r: Option<Result<Vec<Message>, Error>>)
        requires
            ctx.wf(),
            ctx.body_wf(),
        ensures
            r is None <==> !self.admits(ctx),
            r matches Some(x) ==> result_view(x) == self.spec_lint(slug@, ctx),
    {
        if let Ok(re) = self.regex() {
            let mut i: usize = 0;
            while i < ctx.body.len()
                invariant
                    re@ == self.pattern_spec(),
                    regex_compiles(self.pattern_spec()),
                    i <= ctx.body@.len(),
                    forall|j: int|
                        0 <= j < i && #[trigger] self.link_digits(ctx.body@[j]) is Some ==> {
                            &&& self.link_number(ctx.body@[j]) is Some
                            &&& find_proposal(ctx.proposals@, self.link_number(ctx.body@[j])->0 as u32) is Some
                        },
                decreases ctx.body@.len() - i,
            {
                let n = &ctx.body[i];
                if self.digits_of(&re, n).is_some() {
                    match self.number_of(&re, n) {
                        None => return None,
                        Some((_, v)) => {
                            if ctx.proposal(v).is_none() {
                                return None;
                            }
                        },
                    }
                }
                i += 1;
            }
        }
        Some(self.lint(slug, ctx))
    }

    /// The lint, where every link names a proposal that was read.
    pub fn lint(&self, slug: &str, ctx: &Context) -> (r: Result<Vec<Message>, Error>)
        requires
            ctx.wf(),
            ctx.body_wf(),
            self.admits(ctx),
        ensures
            result_view(r) == self.spec_lint(slug@, ctx),
    {
        let re = match self.regex() {
            Ok(re) => re,
            Err(message) => return Err(Error::Custom { message }),
        };
        let my_tier = self.tier(ctx.preamble());
        let mut msgs: Vec<Message> = Vec::new();
        let mut min: usize = usize::MAX;
        let mut i: usize = 0;
        while i < ctx.body.len()
            invariant
                ctx.wf(),
                ctx.body_wf(),
                self.admits(ctx),
                re@ == self.pattern_spec(),
                regex_compiles(self.pattern_spec()),
                my_tier == status_tier(self.flow_spec(), self.status@, ctx.preamble@),
                i <= ctx.body@.len(),
                msgs@.map_values(|m: Message| m@) == self.scan_spec(ctx, slug@, my_tier as nat, i as int).msgs,
                min == self.scan_spec(ctx, slug@, my_tier as nat, i as int).min,
            decreases ctx.body@.len() - i,
        {
            let n = &ctx.body[i];
            assert(node_in_source(ctx, ctx.body@[i as int]));
            let (d, v) = match self.number_of(&re, n) {
                None => {
                    i += 1;
                    continue;
                },
                Some(x) => x,
            };
            let prop = match ctx.proposal(v) {
                Some(p) => p,
                None => {
                    assert(false);
                    return Ok(msgs);
                },
            };
            let (found, new_min) = self.link_message(slug, ctx, n, d.as_str(), prop, my_tier, min);
            min = new_min;
            match found {
                Some(m) => {
                    let ghost before = msgs@.map_values(|m: Message| m@);
                    msgs.push(m);
                    assert(msgs@.map_values(|m: Message| m@) =~= before.push(m@));
                },
                None => {},
            }
            i += 1;
        }
        Ok(msgs)
    }

    /// The message, if any, for a link on node `n` with the digits `d`, to
    /// proposal `prop`, and the lowest tier read so far after it.
    fn link_message(
        &self,
        slug: &str,
        ctx: &Context,
        n: &Node,
        d: &str,
        prop: &Proposal,
        my_tier: usize,
        min: usize,
    ) -> (r: (Option<Message>, usize))
        requires
            ctx.wf(),
            ctx.body_wf(),
            node_in_source(ctx, *n),
        ensures
            ({
                let path = self.prefix@ + d@ + self.suffix@;
                match prop.preamble {
                    None => r.1 == min && (r.0 matches Some(m) && m@ == lint_message(
                        ctx.annotation_level,
                        slug@,
                        "unable to read file `"@ + path + "`: "@ + prop.error@,
                        seq![line_snippet(ctx, n.start_line as int)],
                        seq![],
                    )),
                    Some(pre) => {
                        let theirs = status_tier(self.flow_spec(), self.status@, pre@);
                        let new_min = if theirs < min { theirs as int } else { min as int };
                        &&& r.1 == new_min
                        &&& if theirs >= my_tier {
                            r.0 is None
                        } else {
                            r.0 matches Some(m) && m@ == self.unstable_message(ctx, slug@, n.start_line as int, path, new_min)
                        }
                    },
                }
            }),
    {
        let path = concat3(self.prefix.as_str(), d, self.suffix.as_str());
        let snip = line_snippet_of(ctx, n);
        let pre = match &prop.preamble {
            None => {
                let title = concat5("unable to read file `", path.as_str(), "`: ", prop.error.as_str(), "");
                proof {
                    reveal_strlit("unable to read file `");
                    reveal_strlit("`: ");
                    reveal_strlit("");
                    assert(title@ =~= "unable to read file `"@ + path@ + "`: "@ + prop.error@);
                }
                let m = crate::lints::message_one(ctx.annotation_level(), slug, title, snip);
                return (Some(m), min);
            },
            Some(p) => p,
        };
        let theirs = self.tier(pre);
        let new_min = if theirs < min { theirs } else { min };
        if theirs >= my_tier {
            return (None, new_min);
        }
        let status_text: String = match ctx.preamble().by_name(self.status.as_str()) {
            Some(f) => string_of(trim_str(f.value()).as_slice()),
            None => String::from_str("<missing>"),
        };
        let t1 = concat5("proposal `", path.as_str(), "` is not stable enough for a `", self.status.as_str(), "` of `");
        let title = concat3(t1.as_str(), status_text.as_str(), "`");
        let choices = flow_choices(&self.flow, new_min);
        let joined = join_strings(&choices, "`, `");
        let mut footers: Vec<Footer> = Vec::new();
        if !joined.as_str().is_empty() {
            let t = concat5("because of this link, this proposal's `", self.status.as_str(), "` must be one of: `", joined.as_str(), "`");
            let f = footer(Level::Help, t);
            let ghost fview = f@;
            footers.push(f);
            assert(footers@.map_values(|f: Footer| f@) =~= seq![fview]);
        } else {
            assert(footers@.map_values(|f: Footer| f@) =~= Seq::<FooterView>::empty());
        }
        let ghost sv = snip@;
        let m = new_message(ctx.annotation_level(), slug, title, vec1(snip), footers);
        proof {
            reveal_strlit("<missing>");
            reveal_strlit("proposal `");
            reveal_strlit("` is not stable enough for a `");
            reveal_strlit("` of `");
            reveal_strlit("`");
            reveal_strlit("`, `");
            reveal_strlit("because of this link, this proposal's `");
            reveal_strlit("` must be one of: `");
            assert(m@.snippets =~= seq![sv]);
        }
        (Some(m), new_min)
    }

    /// The tier of the `status` header of a preamble.
    fn tier(&self, fields: &Preamble) -> (r: usize)
        ensures
            r == status_tier(self.flow_spec(), self.status@, fields@),
    {
        match fields.by_name(self.status.as_str()) {
            None => 0,
            Some(f) => {
                let v = string_of(trim_str(f.value()).as_slice());
                flow_tier(&self.flow, v.as_str())
            },
        }
    }
}

/// The unfolded snippet of line `line` of the proposal, with no annotation.
pub open spec fn line_snippet(ctx: &Context, line: int) -> SnippetView {
    SnippetView { source: line_spec(ctx, line), line_start: line, origin: ctx.origin_view(), fold: false, annotations: seq![] }
}

/// The snippet of the first line of a node.
fn line_snippet_of(ctx: &Context, n: &Node) -> (r: crate::snippets::Snippet)
    requires
        node_in_source(ctx, *n),
    ensures
        r@ == line_snippet(ctx, n.start_line as int),
{
    let source = ctx.line(n.start_line);
    let s = crate::snippets::snippet(source.as_str(), n.start_line, ctx.origin(), false, Vec::new());
    assert(s@.annotations =~= seq![]);
    s
}

/// The number that node `i` links to is among the numbers of the first
/// `m` nodes, for `i < m`.
pub proof fn lemma_numbers_upto_has(l: &LinkStatus, ctx: &Context, i: int, m: int)
    requires
        0 <= i < m <= ctx.body@.len(),
        l.link_number(ctx.body@[i]) is Some,
    ensures
        l.numbers_upto(ctx, m).contains(l.link_number(ctx.body@[i])->0),
    decreases m,
{
    let x = l.link_number(ctx.body@[i])->0;
    let prev = l.numbers_upto(ctx, m - 1);
    if i < m - 1 {
        lemma_numbers_upto_has(l, ctx, i, m - 1);
        let w = choose|w: int| 0 <= w < prev.len() && prev[w] == x;
        match l.link_number(ctx.body@[m - 1]) {
            Some(v) => assert(prev.push(v)[w] == x),
            None => {},
        }
    } else {
        assert(prev.push(x)[prev.len() as int] == x);
    }
}

/// Reading the proposals that `find_resources` names is enough for the
/// lint to run: when every link to a proposal names a `u32` number and
/// every number the lint asks for was read, the lint admits the proposal.
pub proof fn law_resources_suffice(l: &LinkStatus, ctx: &Context)
    requires
        forall|i: int| 0 <= i < ctx.body@.len() && #[trigger] l.link_digits(ctx.body@[i]) is Some ==> l.link_number(ctx.body@[i]) is Some,
        forall|k: int| 0 <= k < l.wanted(ctx).len() ==> find_proposal(ctx.proposals@, #[trigger] l.wanted(ctx)[k] as u32) is Some,
    ensures
        l.admits(ctx),
{
    if regex_compiles(l.pattern_spec()) {
        assert forall|i: int| 0 <= i < ctx.body@.len() && #[trigger] l.link_digits(ctx.body@[i]) is Some implies {
            &&& l.link_number(ctx.body@[i]) is Some
            &&& find_proposal(ctx.proposals@, l.link_number(ctx.body@[i])->0 as u32) is Some
        } by {
            lemma_numbers_upto_has(l, ctx, i, ctx.body@.len() as int);
            let w = choose|w: int| 0 <= w < l.wanted(ctx).len() && l.wanted(ctx)[w] == l.link_number(ctx.body@[i])->0;
            assert(find_proposal(ctx.proposals@, l.wanted(ctx)[w] as u32) is Some);
        }
    }
}

impl LinkStatus {
    /// The `status` tier of the proposal that node `i` links to, when it is a
    /// link to a proposal whose preamble was read.
    pub open spec fn read_link_tier(&self, ctx: &Context, i: int) -> Option<nat> {
        let n = ctx.body@[i];
        match self.link_digits(n) {
            None => None,
            Some(_) => match find_proposal(ctx.proposals@, self.link_number(n)->0 as u32)->0.preamble {
                None => None,
                Some(pre) => Some(status_tier(self.flow_spec(), self.status@, pre@)),
            },
        }
    }

    /// The lowest tier of the proposals read among the links of the first
    /// `k` nodes (`usize::MAX` before any).
    pub open spec fn min_read_tier(&self, ctx: &Context, k: int) -> int
        decreases k,
    {
        if k <= 0 {
            usize::MAX as int
        } else {
            let p = self.min_read_tier(ctx, k - 1);
            match self.read_link_tier(ctx, k - 1) {
                Some(t) => if t < p { t as int } else { p },
                None => p,
            }
        }
    }

    /// The message for node `i`, if it links to a proposal that could not be
    /// read, or whose tier is below `my_tier`; the footer of the latter
    /// names the status values whose tier is at most the lowest tier read up
    /// to and including this link.
    pub open spec fn node_message(&self, ctx: &Context, slug: Seq<char>, my_tier: nat, i: int) -> Option<MessageView> {
        let n = ctx.body@[i];
        match self.link_digits(n) {
            None => None,
            Some(d) => {
                let path = self.prefix@ + d + self.suffix@;
                let prop = find_proposal(ctx.proposals@, self.link_number(n)->0 as u32)->0;
                match prop.preamble {
                    None => Some(
                        lint_message(
                            ctx.annotation_level,
                            slug,
                            "unable to read file `"@ + path + "`: "@ + prop.error@,
                            seq![line_snippet(ctx, n.start_line as int)],
                            seq![],
                        ),
                    ),
                    Some(pre) => if status_tier(self.flow_spec(), self.status@, pre@) >= my_tier {
                        None
                    } else {
                        Some(self.unstable_message(ctx, slug, n.start_line as int, path, self.min_read_tier(ctx, i + 1)))
                    },
                }
            },
        }
    }

    /// Over the first `k` nodes, the scan raises, in order, the messages of
    /// the links that draw one, and keeps the lowest tier read.
    proof fn lemma_scan_filter(&self, ctx: &Context, slug: Seq<char>, my_tier: nat, k: int)
        requires
            0 <= k <= ctx.body@.len(),
        ensures
            self.scan_spec(ctx, slug, my_tier, k).min == self.min_read_tier(ctx, k),
            self.scan_spec(ctx, slug, my_tier, k).msgs == Seq::new(k as nat, |i: int| i).filter(
                |i: int| self.node_message(ctx, slug, my_tier, i) is Some,
            ).map_values(|i: int| self.node_message(ctx, slug, my_tier, i)->0),
        decreases k,
    {
        reveal(Seq::filter);
        let pred = |i: int| self.node_message(ctx, slug, my_tier, i) is Some;
        let msg = |i: int| self.node_message(ctx, slug, my_tier, i)->0;
        let t = Seq::new(k as nat, |i: int| i);
        if k > 0 {
            self.lemma_scan_filter(ctx, slug, my_tier, k - 1);
            assert(t.drop_last() =~= Seq::new((k - 1) as nat, |i: int| i));
            assert(t.last() == k - 1);
            let sub = t.drop_last().filter(pred);
            assert(t.filter(pred) == if pred(t.last()) {
                sub.push(t.last())
            } else {
                sub
            });
            assert(sub.push(t.last()).map_values(msg) =~= sub.map_values(msg).push(msg(t.last())));
        } else {
            assert(t =~= Seq::<int>::empty());
            assert(t.filter(pred) =~= Seq::<int>::empty());
            assert(t.filter(pred).map_values(msg) =~= Seq::<MessageView>::empty());
        }
    }
}

/// Once the pattern compiles, the lint raises, in document order, exactly
/// one message for each link to a proposal, wherever it stands, whose
/// proposal could not be read or has a status tier lower than this
/// proposal's, and no other; the footer of the latter names the status
/// values whose tier is at most the lowest tier among the proposals read up
/// to that link.
pub proof fn law_link_status_exact(lint: LinkStatus, slug: Seq<char>, ctx: &Context)
    ensures
        regex_compiles(lint.pattern_spec()) ==> {
            let my_tier = status_tier(lint.flow_spec(), lint.status@, ctx.preamble@);
            lint.spec_lint(slug, ctx) == Ok::<Seq<MessageView>, Seq<char>>(
                Seq::new(ctx.body@.len(), |i: int| i).filter(
                    |i: int| lint.node_message(ctx, slug, my_tier, i) is Some,
                ).map_values(|i: int| lint.node_message(ctx, slug, my_tier, i)->0),
            )
        },
{
    let my_tier = status_tier(lint.flow_spec(), lint.status@, ctx.preamble@);
    lint.lemma_scan_filter(ctx, slug, my_tier, ctx.body@.len() as int);
}

} // verus!
