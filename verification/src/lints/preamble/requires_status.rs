//! A proposal may only require proposals at least as advanced as itself.

use vstd::prelude::*;

use crate::collate::{insert_sorted, lemma_sorted_of, sorted_of, strictly_sorted};
use crate::lints::{
    field_snippet, field_snippet1, field_snippet_spec, find_proposal, get_field, join, join_strings,
    line_span, line_span_spec, lint_message, message_one, new_message, no_messages, strings_view,
    vec1, Context, Proposal,
};
use crate::preamble::{find_field, Field, FieldView, Preamble};
use crate::snippets::{
    annotations_view, footer, Annotation, AnnotationView, Footer, FooterView, Level, Message,
    MessageView,
};
use crate::text::{
    blen, byte_len, chars_eq, chars_of, concat3, concat5, concat7, decimal, lemma_split_offsets,
    parse_u32, parse_unsigned, piece_offset, split, split_chars, string_of, trim, trim_chars,
    trim_str, u64_to_string,
};

verus! {

/// The proposals listed in the `requires` header must each have a
/// `status` at least as advanced, in the tiers of `flow`, as this one's.
#[derive(Debug, Clone)]
pub struct RequiresStatus {
    pub requires: String,
    pub status: String,
    /// Status values from least to most advanced; values in one tier are
    /// equally advanced.
    pub flow: Vec<Vec<String>>,
}

pub open spec fn flow_view(flow: Seq<Vec<String>>) -> Seq<Seq<Seq<char>>> {
    flow.map_values(|t: Vec<String>| strings_view(t@))
}

/// The tier of a status value: one more than the position of the last tier
/// that lists it, or 0 when none does.
pub open spec fn tier_of(flow: Seq<Seq<Seq<char>>>, v: Seq<char>) -> nat
    decreases flow.len(),
{
    if flow.len() == 0 {
        0
    } else if flow.last().contains(v) {
        flow.len()
    } else {
        tier_of(flow.drop_last(), v)
    }
}

/// The tier of the trimmed `status` header of a proposal, or 0 without one.
pub open spec fn status_tier(flow: Seq<Seq<Seq<char>>>, status: Seq<char>, fields: Seq<FieldView>) -> nat {
    match find_field(fields, status) {
        Some(f) => tier_of(flow, trim(f.value)),
        None => 0,
    }
}

/// The status values that some tier lists.
pub open spec fn in_flow(flow: Seq<Seq<Seq<char>>>, v: Seq<char>) -> bool {
    exists|t: int| 0 <= t < flow.len() && #[trigger] flow[t].contains(v)
}

/// The status values whose tier is at most `min`.
pub open spec fn choice_set(flow: Seq<Seq<Seq<char>>>, min: int) -> Set<Seq<char>> {
    Set::new(|v: Seq<char>| in_flow(flow, v) && tier_of(flow, v) <= min)
}

/// The numbers among the first `k` items that parse as `u32`, in order.
pub open spec fn item_u32s(items: Seq<Seq<char>>, k: int) -> Seq<nat>
    decreases k,
{
    if k <= 0 {
        seq![]
    } else {
        let prev = item_u32s(items, k - 1);
        match parse_unsigned(trim(items[k - 1]), u32::MAX as int) {
            Some(n) => prev.push(n),
            None => prev,
        }
    }
}

/// What scanning the required proposals gives: a message for each that
/// could not be read, the annotations of those less advanced, and the
/// lowest tier among those read.
#[verifier::ext_equal]
pub struct StatusScan {
    pub msgs: Seq<MessageView>,
    pub anns: Seq<AnnotationView>,
    pub min: int,
}

impl RequiresStatus {
    pub open spec fn flow_spec(&self) -> Seq<Seq<Seq<char>>> {
        flow_view(self.flow@)
    }

    /// The numbers of the proposals that the lint reads: those listed in
    /// the `requires` header.
    pub open spec fn wanted(&self, fields: Seq<FieldView>) -> Seq<nat> {
        match find_field(fields, self.requires@) {
            None => seq![],
            Some(f) => item_u32s(split(f.value, ','), split(f.value, ',').len() as int),
        }
    }

    /// Every proposal the lint reads was read.
    pub open spec fn admits(&self, ctx: &Context) -> bool {
        forall|i: int| 0 <= i < self.wanted(ctx.preamble@).len()
            ==> find_proposal(ctx.proposals@, #[trigger] self.wanted(ctx.preamble@)[i] as u32) is Some
    }

    /// The outcome of the first `k` items of the `requires` header `f`.
    pub open spec fn scan_spec(
        &self,
        level: Level,
        slug: Seq<char>,
        origin: Option<Seq<char>>,
        f: FieldView,
        proposals: Seq<Proposal>,
        my_tier: nat,
        k: int,
    ) -> StatusScan
        decreases k,
    {
        if k <= 0 {
            StatusScan { msgs: seq![], anns: seq![], min: usize::MAX as int }
        } else {
            let p = self.scan_spec(level, slug, origin, f, proposals, my_tier, k - 1);
            let items = split(f.value, ',');
            let item = items[k - 1];
            let start = blen(f.name) + piece_offset(items, k - 1) + 1;
            match parse_unsigned(trim(item), u32::MAX as int) {
                None => p,
                Some(key) => {
                    let prop = find_proposal(proposals, key as u32)->0;
                    match prop.preamble {
                        None => StatusScan {
                            msgs: p.msgs.push(
                                lint_message(
                                    level,
                                    slug,
                                    "unable to read proposal number `"@ + decimal(key) + "`: "@ + prop.error@,
                                    seq![field_snippet_spec(f, origin, seq![line_span_spec(level, f, start, blen(item) as int, "required from here"@)])],
                                    seq![],
                                ),
                            ),
                            ..p
                        },
                        Some(pre) => {
                            let theirs = status_tier(self.flow_spec(), self.status@, pre@);
                            let min = if theirs < p.min { theirs as int } else { p.min };
                            if theirs >= my_tier {
                                StatusScan { min, ..p }
                            } else {
                                StatusScan {
                                    anns: p.anns.push(line_span_spec(level, f, start, blen(item) as int, "has a less advanced status"@)),
                                    min,
                                    ..p
                                }
                            }
                        },
                    }
                },
            }
        }
    }

    /// The trimmed value of this proposal's `status` header, or
    /// `<missing>`.
    pub open spec fn status_text(&self, fields: Seq<FieldView>) -> Seq<char> {
        match find_field(fields, self.status@) {
            Some(s) => trim(s.value),
            None => "<missing>"@,
        }
    }

    /// When the `requires` header is present: a message for each listed
    /// proposal that could not be read, in order; then one marking every
    /// listed proposal whose status tier is lower than this proposal's, if
    /// there is one, with a footer naming, in order, the status values
    /// whose tier is at most the lowest tier of the listed proposals.
    pub open spec fn spec_lint(&self, slug: Seq<char>, ctx: &Context) -> Seq<MessageView> {
        let level = ctx.annotation_level;
        let origin = ctx.origin_view();
        let fields = ctx.preamble@;
        match find_field(fields, self.requires@) {
            None => seq![],
            Some(f) => {
                let my_tier = status_tier(self.flow_spec(), self.status@, fields);
                let items = split(f.value, ',');
                let s = self.scan_spec(level, slug, origin, f, ctx.proposals@, my_tier, items.len() as int);
                let choices = join(sorted_of(choice_set(self.flow_spec(), s.min)), "`, `"@);
                s.msgs + if s.anns.len() == 0 {
                    seq![]
                } else {
                    seq![
                        lint_message(
                            level,
                            slug,
                            "preamble header `"@ + self.requires@ + "` contains items not stable enough for a `"@
                                + self.status@ + "` of `"@ + self.status_text(fields) + "`"@,
                            seq![field_snippet_spec(f, origin, s.anns)],
                            if choices.len() == 0 {
                                seq![]
                            } else {
                                seq![
                                    FooterView {
                                        level: Level::Help,
                                        title: "valid `"@ + self.status@ + "` values for this proposal are: `"@ + choices
                                            + "`"@,
                                    },
                                ]
                            },
                        ),
                    ]
                }
            },
        }
    }

    /// The numbers of the proposals the lint reads.
    pub fn find_resources(&self, preamble: &Preamble) -> (r: Vec<u32>)
        ensures
            r@.map_values(|n: u32| n as nat) == self.wanted(preamble@),
    {
        let field = match preamble.by_name(self.requires.as_str()) {
            None => {
                let r: Vec<u32> = Vec::new();
                assert(r@.map_values(|n: u32| n as nat) =~= self.wanted(preamble@));
                return r;
            },
            Some(f) => f,
        };
        let value = chars_of(field.value());
        let items = split_chars(value.as_slice(), ',');
        let ghost sitems = split(field@.value, ',');
        let mut r: Vec<u32> = Vec::new();
        let mut i: usize = 0;
        while i < items.len()
            invariant
                sitems == split(field@.value, ','),
                items@.len() == sitems.len(),
                forall|j: int| 0 <= j < items@.len() ==> #[trigger] items@[j]@ == sitems[j],
                i <= items@.len(),
                r@.map_values(|n: u32| n as nat) == item_u32s(sitems, i as int),
            decreases items@.len() - i,
        {
            let t = trim_chars(items[i].as_slice());
            if let Some(n) = parse_u32(t.as_slice()) {
                r.push(n);
            }
            assert(r@.map_values(|n: u32| n as nat) =~= item_u32s(sitems, i + 1));
            i += 1;
        }
        r
    }

    /// The tier of the `status` header of `fields`.
    fn tier(&self, fields: &Preamble) -> (r: usize)
        ensures
            r == status_tier(self.flow_spec(), self.status@, fields@),
    {
        match fields.by_name(self.status.as_str()) {
            None => 0,
            Some(f) => {
                let v = string_of(trim_str(f.value()).as_slice());
                flow_tier(&self.flow, v.as_str())
            },
        }
    }

    /// Scans the items of the `requires` header.
    #[verifier::rlimit(60)]
    fn scan(&self, level: Level, slug: &str, ctx: &Context, field: &Field, my_tier: usize) -> (r: (Vec<Message>, Vec<Annotation>, usize))
        requires
            field@.wf(),
            find_field(ctx.preamble@, self.requires@) == Some(field@),
            self.admits(ctx),
        ensures
            ({
                let s = self.scan_spec(level, slug@, ctx.origin_view(), field@, ctx.proposals@, my_tier as nat, split(field@.value, ',').len() as int);
                &&& r.0@.map_values(|m: Message| m@) == s.msgs
                &&& annotations_view(r.1@) == s.anns
                &&& r.2 == s.min
            }),
    {
        let value = chars_of(field.value());
        let items = split_chars(value.as_slice(), ',');
        let ghost sitems = split(field@.value, ',');
        proof {
            lemma_split_offsets(field@.value, ',');
        }
        let name_count = crate::text::str_byte_len(field.name());
        let mut msgs: Vec<Message> = Vec::new();
        let mut anns: Vec<Annotation> = Vec::new();
        let mut min: usize = usize::MAX;
        let mut offset: usize = 0;
        let mut i: usize = 0;
        while i < items.len()
            invariant
                field@.wf(),
                find_field(ctx.preamble@, self.requires@) == Some(field@),
                self.admits(ctx),
                sitems == split(field@.value, ','),
                items@.len() == sitems.len(),
                forall|j: int| 0 <= j < items@.len() ==> #[trigger] items@[j]@ == sitems[j],
                forall|j: int|
                    0 <= j < sitems.len() ==> piece_offset(sitems, j) + blen(#[trigger] sitems[j]) <= blen(field@.value),
                name_count == blen(field@.name),
                i <= items@.len(),
                offset == piece_offset(sitems, i as int),
                ({
                    let s = self.scan_spec(level, slug@, ctx.origin_view(), field@, ctx.proposals@, my_tier as nat, i as int);
                    &&& msgs@.map_values(|m: Message| m@) == s.msgs
                    &&& annotations_view(anns@) == s.anns
                    &&& min == s.min
                }),
                self.wanted(ctx.preamble@) == item_u32s(sitems, sitems.len() as int),
            decreases items@.len() - i,
        {
            let item = &items[i];
            let item_count = byte_len(item.as_slice());
            let current = offset;
            let t = trim_chars(item.as_slice());
            match parse_u32(t.as_slice()) {
                None => {},
                Some(key) => {
                    proof {
                        lemma_item_u32s_has(sitems, i as int, sitems.len() as int);
                    }
                    let prop = match ctx.proposal(key) {
                        Some(p) => p,
                        None => {
                            assert(false);
                            return (msgs, anns, min);
                        },
                    };
                    match &prop.preamble {
                        None => {
                            let n = u64_to_string(key as u64);
                            let title = concat5("unable to read proposal number `", n.as_str(), "`: ", prop.error.as_str(), "");
                            let ann = line_span(level, field, name_count + current + 1, item_count, "required from here");
                            let snip = field_snippet1(field, ctx.origin(), ann);
                            proof {
                                reveal_strlit("unable to read proposal number `");
                                reveal_strlit("`: ");
                                reveal_strlit("");
                                reveal_strlit("required from here");
                            }
                            let m = message_one(level, slug, title, snip);
                            let ghost before = msgs@.map_values(|m: Message| m@);
                            msgs.push(m);
                            assert(msgs@.map_values(|m: Message| m@) =~= before.push(m@));
                        },
                        Some(pre) => {
                            let theirs = self.tier(pre);
                            if theirs < min {
                                min = theirs;
                            }
                            if theirs < my_tier {
                                let ann = line_span(level, field, name_count + current + 1, item_count, "has a less advanced status");
                                proof {
                                    reveal_strlit("has a less advanced status");
                                }
                                let ghost before = annotations_view(anns@);
                                anns.push(ann);
                                assert(annotations_view(anns@) =~= before.push(ann@));
                            }
                        },
                    }
                },
            }
            offset = offset + item_count + 1;
            i += 1;
        }
        (msgs, anns, min)
    }

    /// The lint, where every proposal it reads was read.
    pub fn lint(&self, slug: &str, ctx: &Context) -> (r: Vec<Message>)
        requires
            ctx.wf(),
            self.admits(ctx),
        ensures
            r@.map_values(|m: Message| m@) == self.spec_lint(slug@, ctx),
    {
        let field = match get_field(ctx, self.requires.as_str()) {
            None => return no_messages(),
            Some(f) => f,
        };
        let level = ctx.annotation_level();
        let my_tier = self.tier(ctx.preamble());
        let (mut msgs, anns, min) = self.scan(level, slug, ctx, field, my_tier);
        if anns.len() == 0 {
            proof {
                assert(msgs@.map_values(|m: Message| m@) =~= self.spec_lint(slug@, ctx));
            }
            return msgs;
        }
        let shown: String = match ctx.preamble().by_name(self.status.as_str()) {
            Some(s) => string_of(trim_str(s.value()).as_slice()),
            None => String::from_str("<missing>"),
        };
        let title = concat7(
            "preamble header `",
            self.requires.as_str(),
            "` contains items not stable enough for a `",
            self.status.as_str(),
            "` of `",
            shown.as_str(),
            "`",
        );
        let choices = flow_choices(&self.flow, min);
        let joined = join_strings(&choices, "`, `");
        let ghost choices_text = join(sorted_of(choice_set(self.flow_spec(), min as int)), "`, `"@);
        proof {
            reveal_strlit("`, `");
            assert(joined@ == choices_text);
        }
        let mut footers: Vec<Footer> = Vec::new();
        if !joined.as_str().is_empty() {
            let t = concat5("valid `", self.status.as_str(), "` values for this proposal are: `", joined.as_str(), "`");
            let f = footer(Level::Help, t);
            let ghost fview = f@;
            footers.push(f);
            assert(footers@.map_values(|f: Footer| f@) =~= seq![fview]);
        } else {
            assert(footers@.map_values(|f: Footer| f@) =~= Seq::<FooterView>::empty());
        }
        let snip = field_snippet(field, ctx.origin(), anns);
        let ghost sv = snip@;
        let ghost fv = footers@.map_values(|f: Footer| f@);
        let m = new_message(level, slug, title, vec1(snip), footers);
        proof {
            reveal_strlit("<missing>");
            reveal_strlit("preamble header `");
            reveal_strlit("` contains items not stable enough for a `");
            reveal_strlit("` of `");
            reveal_strlit("`");
            reveal_strlit("`, `");
            reveal_strlit("valid `");
            reveal_strlit("` values for this proposal are: `");
            assert(m@.snippets =~= seq![sv]);
        }
        let ghost before = msgs@.map_values(|m: Message| m@);
        msgs.push(m);
        proof {
            assert(msgs@.map_values(|m: Message| m@) =~= before.push(m@));
            assert(msgs@.map_values(|m: Message| m@) =~= self.spec_lint(slug@, ctx));
        }
        msgs
    }

    /// The lint, or none when a proposal it reads was not read.
    pub fn check(&self, slug: &str, ctx: &Context) -> (r: Option<Vec<Message>>)
        requires
            ctx.wf(),
        ensures
            r is None <==> !self.admits(ctx),
            r matches Some(v) ==> v@.map_values(|m: Message| m@) == self.spec_lint(slug@, ctx),
    {
        let wanted = self.find_resources(ctx.preamble());
        let mut i: usize = 0;
        while i < wanted.len()
            invariant
                i <= wanted@.len(),
                wanted@.map_values(|n: u32| n as nat) == self.wanted(ctx.preamble@),
                forall|j: int| 0 <= j < i ==> find_proposal(ctx.proposals@, #[trigger] self.wanted(ctx.preamble@)[j] as u32) is Some,
            decreases wanted@.len() - i,
        {
            assert(self.wanted(ctx.preamble@)[i as int] as u32 == wanted@[i as int]);
            if ctx.proposal(wanted[i]).is_none() {
                return None;
            }
            i += 1;
        }
        Some(self.lint(slug, ctx))
    }
}

/// Some tier before `t` lists `v`.
pub open spec fn in_tiers(fl: Seq<Seq<Seq<char>>>, t: int, v: Seq<char>) -> bool {
    exists|a: int| 0 <= a < t && #[trigger] fl[a].contains(v)
}

/// One of the first `j` strings is `v`.
pub open spec fn in_prefix(s: Seq<Seq<char>>, j: int, v: Seq<char>) -> bool {
    exists|b: int| 0 <= b < j && #[trigger] s[b] == v
}

proof fn lemma_in_prefix_step(s: Seq<Seq<char>>, j: int)
    requires
        0 <= j < s.len(),
    ensures
        forall|v: Seq<char>| #[trigger] in_prefix(s, j + 1, v) <==> (in_prefix(s, j, v) || s[j] == v),
{
    assert forall|v: Seq<char>| #[trigger] in_prefix(s, j + 1, v) <==> (in_prefix(s, j, v) || s[j] == v) by {
        if in_prefix(s, j + 1, v) {
            let b = choose|b: int| 0 <= b < j + 1 && #[trigger] s[b] == v;
            if b < j {
                assert(in_prefix(s, j, v));
            }
        }
        if s[j] == v {
            assert(in_prefix(s, j + 1, v));
        }
        if in_prefix(s, j, v) {
            let b = choose|b: int| 0 <= b < j && #[trigger] s[b] == v;
            assert(in_prefix(s, j + 1, v));
        }
    }
}

proof fn lemma_in_prefix_all(s: Seq<Seq<char>>)
    ensures
        forall|v: Seq<char>| #[trigger] in_prefix(s, s.len() as int, v) <==> s.contains(v),
{
}

proof fn lemma_in_tiers_step(fl: Seq<Seq<Seq<char>>>, t: int)
    requires
        0 <= t < fl.len(),
    ensures
        forall|v: Seq<char>| #[trigger] in_tiers(fl, t + 1, v) <==> (in_tiers(fl, t, v) || fl[t].contains(v)),
{
    assert forall|v: Seq<char>| #[trigger] in_tiers(fl, t + 1, v) <==> (in_tiers(fl, t, v) || fl[t].contains(v)) by {
        if in_tiers(fl, t + 1, v) {
            let a = choose|a: int| 0 <= a < t + 1 && #[trigger] fl[a].contains(v);
            if a < t {
                assert(in_tiers(fl, t, v));
            }
        }
        if in_tiers(fl, t, v) {
            let a = choose|a: int| 0 <= a < t && #[trigger] fl[a].contains(v);
            assert(in_tiers(fl, t + 1, v));
        }
    }
}

/// A number that an item parses to is among the numbers of the items.
proof fn lemma_item_u32s_has(items: Seq<Seq<char>>, i: int, k: int)
    requires
        0 <= i < k <= items.len(),
        parse_unsigned(trim(items[i]), u32::MAX as int) is Some,
    ensures
        item_u32s(items, k).contains(parse_unsigned(trim(items[i]), u32::MAX as int)->0),
    decreases k,
{
    if i < k - 1 {
        lemma_item_u32s_has(items, i, k - 1);
        let prev = item_u32s(items, k - 1);
        let x = parse_unsigned(trim(items[i]), u32::MAX as int)->0;
        let j = choose|j: int| 0 <= j < prev.len() && prev[j] == x;
        match parse_unsigned(trim(items[k - 1]), u32::MAX as int) {
            Some(n) => assert(prev.push(n)[j] == x),
            None => {},
        }
    } else {
        let prev = item_u32s(items, k - 1);
        let x = parse_unsigned(trim(items[i]), u32::MAX as int)->0;
        assert(prev.push(x)[prev.len() as int] == x);
    }
}

/// The tier of a status value in `flow`.
pub fn flow_tier(flow: &Vec<Vec<String>>, v: &str) -> (r: usize)
    ensures
        r == tier_of(flow_view(flow@), v@),
{
    let target = chars_of(v);
    let ghost fl = flow_view(flow@);
    let mut t: usize = flow.len();
    assert(fl.take(t as int) =~= fl);
    while t > 0
        invariant
            t <= flow@.len(),
            fl == flow_view(flow@),
            target@ == v@,
            tier_of(fl, v@) == tier_of(fl.take(t as int), v@),
        decreases t,
    {
        let tier = &flow[t - 1];
        assert(fl.take(t as int).last() == strings_view(tier@));
        assert(fl.take(t as int).drop_last() =~= fl.take(t - 1));
        let mut j: usize = 0;
        while j < tier.len()
            invariant
                j <= tier@.len(),
                target@ == v@,
                forall|k: int| 0 <= k < j ==> tier@[k]@ != v@,
                0 < t <= flow@.len(),
                fl == flow_view(flow@),
                fl.take(t as int).last() == strings_view(tier@),
                fl.take(t as int).len() == t,
                tier_of(fl, v@) == tier_of(fl.take(t as int), v@),
            decreases tier@.len() - j,
        {
            let c = chars_of(tier[j].as_str());
            if chars_eq(c.as_slice(), target.as_slice()) {
                assert(strings_view(tier@)[j as int] == v@);
                assert(fl.take(t as int).last().contains(v@));
                return t;
            }
            j += 1;
        }
        assert forall|k: int| 0 <= k < strings_view(tier@).len() implies strings_view(tier@)[k] != v@ by {
            assert(strings_view(tier@)[k] == tier@[k]@);
        }
        t -= 1;
    }
    0
}

/// The status values whose tier in `flow` is at most `min`, sorted.
pub fn flow_choices(flow: &Vec<Vec<String>>, min: usize) -> (r: Vec<String>)
    ensures
        strings_view(r@) == sorted_of(choice_set(flow_view(flow@), min as int)),
{
    let ghost fl = flow_view(flow@);
    let mut r: Vec<String> = Vec::new();
    let mut t: usize = 0;
    assert(strings_view(r@).to_set() =~= Set::new(|v: Seq<char>| in_tiers(fl, 0, v) && tier_of(fl, v) <= min));
    while t < flow.len()
        invariant
            t <= flow@.len(),
            fl == flow_view(flow@),
            strictly_sorted(strings_view(r@)),
            strings_view(r@).to_set() == Set::new(|v: Seq<char>| in_tiers(fl, t as int, v) && tier_of(fl, v) <= min),
        decreases flow@.len() - t,
    {
        let tier = &flow[t];
        let ghost tv = strings_view(tier@);
        assert(fl[t as int] == tv);
        let mut j: usize = 0;
        assert(strings_view(r@).to_set() =~= Set::new(
            |v: Seq<char>| (in_tiers(fl, t as int, v) || in_prefix(tv, 0, v)) && tier_of(fl, v) <= min,
        ));
        while j < tier.len()
            invariant
                t < flow@.len(),
                tier == &flow@[t as int],
                fl == flow_view(flow@),
                tv == strings_view(tier@),
                fl[t as int] == tv,
                j <= tier@.len(),
                strictly_sorted(strings_view(r@)),
                strings_view(r@).to_set() == Set::new(
                    |v: Seq<char>| (in_tiers(fl, t as int, v) || in_prefix(tv, j as int, v)) && tier_of(fl, v) <= min,
                ),
            decreases tier@.len() - j,
        {
            let v = &tier[j];
            assert(tv[j as int] == v@);
            let k = flow_tier(flow, v.as_str());
            if k <= min {
                insert_sorted(&mut r, v.clone());
            }
            proof {
                lemma_in_prefix_step(tv, j as int);
            }
            assert(strings_view(r@).to_set() =~= Set::new(
                |x: Seq<char>| (in_tiers(fl, t as int, x) || in_prefix(tv, j + 1, x)) && tier_of(fl, x) <= min,
            ));
            j += 1;
        }
        proof {
            lemma_in_prefix_all(tv);
            lemma_in_tiers_step(fl, t as int);
        }
        assert(strings_view(r@).to_set() =~= Set::new(
            |v: Seq<char>| in_tiers(fl, t + 1, v) && tier_of(fl, v) <= min,
        ));
        t += 1;
    }
    proof {
        assert(strings_view(r@).to_set() =~= choice_set(fl, min as int));
        lemma_sorted_of(strings_view(r@));
    }
    r
}


/// A tier is at most the number of tiers.
proof fn lemma_tier_of_bound(flow: Seq<Seq<Seq<char>>>, v: Seq<char>)
    ensures
        tier_of(flow, v) <= flow.len(),
    decreases flow.len(),
{
    if flow.len() > 0 {
        lemma_tier_of_bound(flow.drop_last(), v);
    }
}

/// The annotation that marks item `j` of the `requires` header `f` as less
/// advanced: the item's bytes on the header's line.
pub open spec fn item_annotation(level: Level, f: FieldView, j: int) -> AnnotationView {
    let items = split(f.value, ',');
    line_span_spec(
        level,
        f,
        blen(f.name) + piece_offset(items, j) + 1,
        blen(items[j]) as int,
        "has a less advanced status"@,
    )
}

impl RequiresStatus {
    /// The `status` tier of the proposal that a `requires` item names, when
    /// the item, trimmed, parses as a `u32` and that proposal was read with a
    /// preamble.
    pub open spec fn read_tier(&self, proposals: Seq<Proposal>, item: Seq<char>) -> Option<nat> {
        match parse_unsigned(trim(item), u32::MAX as int) {
            Some(key) => match find_proposal(proposals, key as u32) {
                Some(p) => match p.preamble {
                    Some(pre) => Some(status_tier(self.flow_spec(), self.status@, pre@)),
                    None => None,
                },
                None => None,
            },
            None => None,
        }
    }

    /// A `requires` item names a proposal that was read and whose `status`
    /// tier is lower than `my_tier`.
    pub open spec fn less_advanced(&self, proposals: Seq<Proposal>, my_tier: nat, item: Seq<char>) -> bool {
        self.read_tier(proposals, item) matches Some(t) && t < my_tier
    }

    /// The message for item `j` of the `requires` header `f`, when the item
    /// names a proposal that was looked up but whose preamble could not be
    /// read: it gives the number and the reason, and marks the item.
    pub open spec fn unread_message(
        &self,
        level: Level,
        slug: Seq<char>,
        origin: Option<Seq<char>>,
        f: FieldView,
        proposals: Seq<Proposal>,
        j: int,
    ) -> Option<MessageView> {
        let items = split(f.value, ',');
        match parse_unsigned(trim(items[j]), u32::MAX as int) {
            Some(key) => match find_proposal(proposals, key as u32) {
                Some(p) => match p.preamble {
                    None => Some(
                        lint_message(
                            level,
                            slug,
                            "unable to read proposal number `"@ + decimal(key) + "`: "@ + p.error@,
                            seq![
                                field_snippet_spec(
                                    f,
                                    origin,
                                    seq![
                                        line_span_spec(
                                            level,
                                            f,
                                            blen(f.name) + piece_offset(items, j) + 1,
                                            blen(items[j]) as int,
                                            "required from here"@,
                                        ),
                                    ],
                                ),
                            ],
                            seq![],
                        ),
                    ),
                    Some(_) => None,
                },
                None => None,
            },
            None => None,
        }
    }

    /// The footer naming, sorted, the status values whose tier is at most
    /// `m`, when there are any.
    pub open spec fn choices_footers(&self, m: int) -> Seq<FooterView> {
        let choices = join(sorted_of(choice_set(self.flow_spec(), m)), "`, `"@);
        if choices.len() == 0 {
            seq![]
        } else {
            seq![
                FooterView {
                    level: Level::Help,
                    title: "valid `"@ + self.status@ + "` values for this proposal are: `"@ + choices + "`"@,
                },
            ]
        }
    }

    /// Over the first `k` items, the scan annotates exactly the items that
    /// are less advanced, raises exactly the messages of the items whose
    /// proposal could not be read, and keeps the lowest tier of the
    /// proposals read (`usize::MAX` before any), wherever the items stand.
    proof fn lemma_scan_exact(
        &self,
        level: Level,
        slug: Seq<char>,
        origin: Option<Seq<char>>,
        f: FieldView,
        proposals: Seq<Proposal>,
        my_tier: nat,
        k: int,
    )
        requires
            0 <= k <= split(f.value, ',').len(),
            forall|j: int|
                0 <= j < k && parse_unsigned(trim(#[trigger] split(f.value, ',')[j]), u32::MAX as int) is Some
                    ==> find_proposal(proposals, parse_unsigned(trim(split(f.value, ',')[j]), u32::MAX as int)->0 as u32) is Some,
        ensures
            ({
                let s = self.scan_spec(level, slug, origin, f, proposals, my_tier, k);
                let items = split(f.value, ',');
                &&& forall|j: int|
                    0 <= j < k && #[trigger] self.less_advanced(proposals, my_tier, items[j]) ==> s.anns.contains(
                        item_annotation(level, f, j),
                    )
                &&& forall|a: int|
                    0 <= a < s.anns.len() ==> exists|j: int|
                        0 <= j < k && #[trigger] self.less_advanced(proposals, my_tier, items[j])
                            && #[trigger] s.anns[a] == item_annotation(level, f, j)
                &&& forall|j: int|
                    0 <= j < k && #[trigger] self.unread_message(level, slug, origin, f, proposals, j) is Some
                        ==> s.msgs.contains(self.unread_message(level, slug, origin, f, proposals, j)->0)
                &&& forall|i: int|
                    0 <= i < s.msgs.len() ==> exists|j: int|
                        0 <= j < k && #[trigger] self.unread_message(level, slug, origin, f, proposals, j) == Some(
                            #[trigger] s.msgs[i],
                        )
                &&& forall|j: int|
                    0 <= j < k && #[trigger] self.read_tier(proposals, items[j]) is Some ==> s.min <= self.read_tier(
                        proposals,
                        items[j],
                    )->0
                &&& s.min == usize::MAX || exists|j: int|
                    0 <= j < k && #[trigger] self.read_tier(proposals, items[j]) == Some(s.min as nat)
                &&& s.min <= usize::MAX
            }),
        decreases k,
    {
        if k > 0 {
            self.lemma_scan_exact(level, slug, origin, f, proposals, my_tier, k - 1);
            let items = split(f.value, ',');
            let p = self.scan_spec(level, slug, origin, f, proposals, my_tier, k - 1);
            let s = self.scan_spec(level, slug, origin, f, proposals, my_tier, k);
            let last = k - 1;
            let ann = item_annotation(level, f, last);
            let um = self.unread_message(level, slug, origin, f, proposals, last);
            let rt = self.read_tier(proposals, items[last]);
            assert({
                &&& s.anns == if self.less_advanced(proposals, my_tier, items[last]) { p.anns.push(ann) } else { p.anns }
                &&& s.msgs == if um is Some { p.msgs.push(um->0) } else { p.msgs }
                &&& s.min == match rt {
                    Some(t) => if t < p.min { t as int } else { p.min },
                    None => p.min,
                }
            }) by {
                match parse_unsigned(trim(items[last]), u32::MAX as int) {
                    None => {
                        assert(s == p);
                    },
                    Some(key) => {
                        assert(find_proposal(proposals, key as u32) is Some);
                        let prop = find_proposal(proposals, key as u32)->0;
                        match prop.preamble {
                            None => {
                                assert(s.anns == p.anns && s.min == p.min);
                                assert(s.msgs == p.msgs.push(um->0));
                            },
                            Some(pre) => {
                                let theirs = status_tier(self.flow_spec(), self.status@, pre@);
                                assert(rt == Some(theirs));
                                assert(s.msgs == p.msgs);
                                if theirs < my_tier {
                                    assert(s.anns == p.anns.push(ann));
                                } else {
                                    assert(s.anns == p.anns);
                                }
                            },
                        }
                    },
                }
            }
            assert forall|j: int|
                0 <= j < k && #[trigger] self.less_advanced(proposals, my_tier, items[j]) implies s.anns.contains(
                item_annotation(level, f, j),
            ) by {
                if j < last {
                    let a = choose|a: int| 0 <= a < p.anns.len() && p.anns[a] == item_annotation(level, f, j);
                    assert(s.anns[a] == p.anns[a]);
                } else {
                    assert(s.anns[s.anns.len() - 1] == item_annotation(level, f, last));
                }
            }
            assert forall|a: int| 0 <= a < s.anns.len() implies exists|j: int|
                0 <= j < k && #[trigger] self.less_advanced(proposals, my_tier, items[j]) && #[trigger] s.anns[a]
                    == item_annotation(level, f, j) by {
                if a < p.anns.len() {
                    assert(s.anns[a] == p.anns[a]);
                    let j = choose|j: int|
                        0 <= j < last && #[trigger] self.less_advanced(proposals, my_tier, items[j])
                            && #[trigger] p.anns[a] == item_annotation(level, f, j);
                    assert(self.less_advanced(proposals, my_tier, items[j]));
                } else {
                    assert(self.less_advanced(proposals, my_tier, items[last]));
                    assert(s.anns[a] == item_annotation(level, f, last));
                }
            }
            assert forall|j: int|
                0 <= j < k && #[trigger] self.unread_message(level, slug, origin, f, proposals, j) is Some implies s.msgs.contains(
                self.unread_message(level, slug, origin, f, proposals, j)->0,
            ) by {
                if j < last {
                    let i = choose|i: int|
                        0 <= i < p.msgs.len() && p.msgs[i] == self.unread_message(level, slug, origin, f, proposals, j)->0;
                    assert(s.msgs[i] == p.msgs[i]);
                } else {
                    assert(s.msgs[s.msgs.len() - 1] == self.unread_message(level, slug, origin, f, proposals, last)->0);
                }
            }
            assert forall|i: int| 0 <= i < s.msgs.len() implies exists|j: int|
                0 <= j < k && #[trigger] self.unread_message(level, slug, origin, f, proposals, j) == Some(
                    #[trigger] s.msgs[i],
                ) by {
                if i < p.msgs.len() {
                    assert(s.msgs[i] == p.msgs[i]);
                    let j = choose|j: int|
                        0 <= j < last && #[trigger] self.unread_message(level, slug, origin, f, proposals, j) == Some(
                            #[trigger] p.msgs[i],
                        );
                    assert(self.unread_message(level, slug, origin, f, proposals, j) == Some(s.msgs[i]));
                } else {
                    assert(self.unread_message(level, slug, origin, f, proposals, last) == Some(s.msgs[i]));
                }
            }
            assert forall|j: int|
                0 <= j < k && #[trigger] self.read_tier(proposals, items[j]) is Some implies s.min <= self.read_tier(
                proposals,
                items[j],
            )->0 by {
                if j < last {
                    assert(p.min <= self.read_tier(proposals, items[j])->0);
                }
            }
            if s.min != usize::MAX {
                if s.min == p.min {
                    if p.min != usize::MAX {
                        let j = choose|j: int| 0 <= j < last && #[trigger] self.read_tier(proposals, items[j]) == Some(p.min as nat);
                        assert(self.read_tier(proposals, items[j]) == Some(s.min as nat));
                    } else {
                        assert(self.read_tier(proposals, items[last]) == Some(s.min as nat));
                    }
                } else {
                    assert(self.read_tier(proposals, items[last]) == Some(s.min as nat));
                }
            }
        }
    }
}

impl RequiresStatus {
    /// Every item of the `requires` header that parses as a number names a
    /// proposal that was looked up.
    proof fn lemma_items_found(&self, ctx: &Context, f: FieldView)
        requires
            self.admits(ctx),
            find_field(ctx.preamble@, self.requires@) == Some(f),
        ensures
            forall|j: int|
                0 <= j < split(f.value, ',').len() && parse_unsigned(trim(#[trigger] split(f.value, ',')[j]), u32::MAX as int)
                    is Some ==> find_proposal(
                    ctx.proposals@,
                    parse_unsigned(trim(split(f.value, ',')[j]), u32::MAX as int)->0 as u32,
                ) is Some,
    {
        let items = split(f.value, ',');
        assert forall|j: int|
            0 <= j < items.len() && parse_unsigned(trim(#[trigger] items[j]), u32::MAX as int) is Some implies find_proposal(
            ctx.proposals@,
            parse_unsigned(trim(items[j]), u32::MAX as int)->0 as u32,
        ) is Some by {
            lemma_item_u32s_has(items, j, items.len() as int);
            let w = self.wanted(ctx.preamble@);
            let i = choose|i: int| 0 <= i < w.len() && w[i] == parse_unsigned(trim(items[j]), u32::MAX as int)->0;
            assert(find_proposal(ctx.proposals@, w[i] as u32) is Some);
        }
    }

    /// The lint's messages when the `requires` header is present: those of
    /// the scan, then one more when the scan annotated an item.
    proof fn lemma_lint_shape(&self, slug: Seq<char>, ctx: &Context, f: FieldView)
        requires
            find_field(ctx.preamble@, self.requires@) == Some(f),
        ensures
            ({
                let s = self.scan_spec(
                    ctx.annotation_level,
                    slug,
                    ctx.origin_view(),
                    f,
                    ctx.proposals@,
                    status_tier(self.flow_spec(), self.status@, ctx.preamble@),
                    split(f.value, ',').len() as int,
                );
                let r = self.spec_lint(slug, ctx);
                &&& s.anns.len() == 0 ==> r == s.msgs
                &&& s.anns.len() > 0 ==> {
                    &&& r.len() == s.msgs.len() + 1
                    &&& forall|i: int| 0 <= i < s.msgs.len() ==> r[i] == s.msgs[i]
                    &&& r.last().title == "preamble header `"@ + self.requires@
                        + "` contains items not stable enough for a `"@ + self.status@ + "` of `"@
                        + self.status_text(ctx.preamble@) + "`"@
                    &&& r.last().snippets[0].annotations == s.anns
                    &&& r.last().footers == self.choices_footers(s.min)
                }
            }),
    {
        let s = self.scan_spec(
            ctx.annotation_level,
            slug,
            ctx.origin_view(),
            f,
            ctx.proposals@,
            status_tier(self.flow_spec(), self.status@, ctx.preamble@),
            split(f.value, ',').len() as int,
        );
        if s.anns.len() == 0 {
            assert(self.spec_lint(slug, ctx) =~= s.msgs);
        }
    }

    /// Item `j` of the `requires` header `f` names a read proposal whose
    /// `status` tier is lower than this proposal's.
    pub open spec fn unstable_item(&self, ctx: &Context, f: FieldView, j: int) -> bool {
        &&& 0 <= j < split(f.value, ',').len()
        &&& self.less_advanced(
            ctx.proposals@,
            status_tier(self.flow_spec(), self.status@, ctx.preamble@),
            split(f.value, ',')[j],
        )
    }

    /// Item `j` of the `requires` header `f` names a proposal that was looked
    /// up but whose preamble could not be read.
    pub open spec fn unread_item(&self, slug: Seq<char>, ctx: &Context, f: FieldView, j: int) -> bool {
        &&& 0 <= j < split(f.value, ',').len()
        &&& self.unread_message(ctx.annotation_level, slug, ctx.origin_view(), f, ctx.proposals@, j) is Some
    }

    /// `m` is the message of an item of the `requires` header `f` that names
    /// a proposal that was looked up but could not be read.
    pub open spec fn is_unread_message(&self, slug: Seq<char>, ctx: &Context, f: FieldView, m: MessageView) -> bool {
        exists|j: int|
            #[trigger] self.unread_item(slug, ctx, f, j) && self.unread_message(
                ctx.annotation_level,
                slug,
                ctx.origin_view(),
                f,
                ctx.proposals@,
                j,
            ) == Some(m)
    }

    /// How many messages come before the one about less advanced items.
    pub open spec fn unread_count(&self, slug: Seq<char>, ctx: &Context, f: FieldView) -> int {
        if exists|j: int| #[trigger] self.unstable_item(ctx, f, j) {
            self.spec_lint(slug, ctx).len() - 1
        } else {
            self.spec_lint(slug, ctx).len() as int
        }
    }

    proof fn lemma_unstable_iff_anns(&self, slug: Seq<char>, ctx: &Context, f: FieldView)
        requires
            self.admits(ctx),
            find_field(ctx.preamble@, self.requires@) == Some(f),
        ensures
            ({
                let s = self.scan_spec(
                    ctx.annotation_level,
                    slug,
                    ctx.origin_view(),
                    f,
                    ctx.proposals@,
                    status_tier(self.flow_spec(), self.status@, ctx.preamble@),
                    split(f.value, ',').len() as int,
                );
                &&& (exists|j: int| #[trigger] self.unstable_item(ctx, f, j)) <==> s.anns.len() > 0
                &&& self.unread_count(slug, ctx, f) == s.msgs.len()
                &&& forall|i: int| 0 <= i < s.msgs.len() ==> self.spec_lint(slug, ctx)[i] == s.msgs[i]
            }),
    {
        let items = split(f.value, ',');
        let my_tier = status_tier(self.flow_spec(), self.status@, ctx.preamble@);
        let level = ctx.annotation_level;
        let ps = ctx.proposals@;
        let s = self.scan_spec(level, slug, ctx.origin_view(), f, ps, my_tier, items.len() as int);
        self.lemma_items_found(ctx, f);
        self.lemma_scan_exact(level, slug, ctx.origin_view(), f, ps, my_tier, items.len() as int);
        self.lemma_lint_shape(slug, ctx, f);
        if exists|j: int| #[trigger] self.unstable_item(ctx, f, j) {
            let j = choose|j: int| #[trigger] self.unstable_item(ctx, f, j);
            assert(self.less_advanced(ps, my_tier, items[j]));
            assert(s.anns.contains(item_annotation(level, f, j)));
        }
        if s.anns.len() > 0 {
            let j = choose|j: int|
                0 <= j < items.len() && #[trigger] self.less_advanced(ps, my_tier, items[j])
                    && #[trigger] s.anns[0] == item_annotation(level, f, j);
            assert(self.unstable_item(ctx, f, j));
        }
    }

    proof fn lemma_law_unread(&self, slug: Seq<char>, ctx: &Context, f: FieldView)
        requires
            self.admits(ctx),
            find_field(ctx.preamble@, self.requires@) == Some(f),
        ensures
            forall|j: int| #[trigger] self.unread_item(slug, ctx, f, j) ==> exists|i: int|
                0 <= i < self.unread_count(slug, ctx, f) && self.unread_message(
                    ctx.annotation_level,
                    slug,
                    ctx.origin_view(),
                    f,
                    ctx.proposals@,
                    j,
                ) == Some(#[trigger] self.spec_lint(slug, ctx)[i]),
            forall|i: int|
                0 <= i < self.unread_count(slug, ctx, f) ==> self.is_unread_message(
                    slug,
                    ctx,
                    f,
                    #[trigger] self.spec_lint(slug, ctx)[i],
                ),
    {
        let items = split(f.value, ',');
        let my_tier = status_tier(self.flow_spec(), self.status@, ctx.preamble@);
        let level = ctx.annotation_level;
        let origin = ctx.origin_view();
        let ps = ctx.proposals@;
        let s = self.scan_spec(level, slug, origin, f, ps, my_tier, items.len() as int);
        let r = self.spec_lint(slug, ctx);
        self.lemma_items_found(ctx, f);
        self.lemma_scan_exact(level, slug, origin, f, ps, my_tier, items.len() as int);
        self.lemma_unstable_iff_anns(slug, ctx, f);
        assert forall|j: int| #[trigger] self.unread_item(slug, ctx, f, j) implies exists|i: int|
            0 <= i < self.unread_count(slug, ctx, f) && self.unread_message(
                ctx.annotation_level,
                slug,
                ctx.origin_view(),
                f,
                ctx.proposals@,
                j,
            ) == Some(#[trigger] self.spec_lint(slug, ctx)[i]) by {
            let i = choose|i: int|
                0 <= i < s.msgs.len() && s.msgs[i] == self.unread_message(level, slug, origin, f, ps, j)->0;
            assert(self.spec_lint(slug, ctx)[i] == s.msgs[i]);
        }
        assert forall|i: int| 0 <= i < self.unread_count(slug, ctx, f) implies self.is_unread_message(
            slug,
            ctx,
            f,
            #[trigger] self.spec_lint(slug, ctx)[i],
        ) by {
            assert(self.spec_lint(slug, ctx)[i] == s.msgs[i]);
            let j = choose|j: int|
                0 <= j < items.len() && #[trigger] self.unread_message(level, slug, origin, f, ps, j) == Some(
                    #[trigger] s.msgs[i],
                );
            assert(self.unread_item(slug, ctx, f, j));
            assert(self.unread_message(level, slug, origin, f, ps, j) == Some(self.spec_lint(slug, ctx)[i]));
        }
    }

    proof fn lemma_law_unstable(&self, slug: Seq<char>, ctx: &Context, f: FieldView)
        requires
            self.admits(ctx),
            find_field(ctx.preamble@, self.requires@) == Some(f),
            exists|j: int| #[trigger] self.unstable_item(ctx, f, j),
        ensures
            ({
                let r = self.spec_lint(slug, ctx);
                let items = split(f.value, ',');
                let ps = ctx.proposals@;
                &&& r.len() > 0
                &&& r.last().title == "preamble header `"@ + self.requires@
                    + "` contains items not stable enough for a `"@ + self.status@ + "` of `"@
                    + self.status_text(ctx.preamble@) + "`"@
                &&& forall|j: int| #[trigger] self.unstable_item(ctx, f, j) ==> r.last().snippets[0].annotations.contains(
                    item_annotation(ctx.annotation_level, f, j),
                )
                &&& forall|a: int|
                    0 <= a < r.last().snippets[0].annotations.len() ==> exists|j: int|
                        #[trigger] self.unstable_item(ctx, f, j) && #[trigger] r.last().snippets[0].annotations[a]
                            == item_annotation(ctx.annotation_level, f, j)
                &&& exists|m: int|
                    #![trigger self.choices_footers(m)]
                    (forall|j: int|
                        0 <= j < items.len() && #[trigger] self.read_tier(ps, items[j]) is Some ==> m
                            <= self.read_tier(ps, items[j])->0) && (exists|j: int|
                        0 <= j < items.len() && #[trigger] self.read_tier(ps, items[j]) == Some(m as nat))
                        && r.last().footers == self.choices_footers(m)
            }),
    {
        let items = split(f.value, ',');
        let my_tier = status_tier(self.flow_spec(), self.status@, ctx.preamble@);
        let level = ctx.annotation_level;
        let origin = ctx.origin_view();
        let ps = ctx.proposals@;
        let s = self.scan_spec(level, slug, origin, f, ps, my_tier, items.len() as int);
        let r = self.spec_lint(slug, ctx);
        self.lemma_items_found(ctx, f);
        self.lemma_scan_exact(level, slug, origin, f, ps, my_tier, items.len() as int);
        self.lemma_lint_shape(slug, ctx, f);
        self.lemma_unstable_iff_anns(slug, ctx, f);
        assert forall|j: int| #[trigger] self.unstable_item(ctx, f, j) implies r.last().snippets[0].annotations.contains(
            item_annotation(level, f, j),
        ) by {
            assert(self.less_advanced(ps, my_tier, items[j]));
        }
        assert forall|a: int|
            0 <= a < r.last().snippets[0].annotations.len() implies exists|j: int|
                #[trigger] self.unstable_item(ctx, f, j) && #[trigger] r.last().snippets[0].annotations[a]
                    == item_annotation(level, f, j) by {
            let j = choose|j: int|
                0 <= j < items.len() && #[trigger] self.less_advanced(ps, my_tier, items[j])
                    && #[trigger] s.anns[a] == item_annotation(level, f, j);
            assert(self.unstable_item(ctx, f, j));
        }
        let j = choose|j: int| #[trigger] self.unstable_item(ctx, f, j);
        assert(self.less_advanced(ps, my_tier, items[j]));
        assert(self.read_tier(ps, items[j]) is Some);
        if let Some(st) = find_field(ctx.preamble@, self.status@) {
            lemma_tier_of_bound(self.flow_spec(), trim(st.value));
        }
        assert(self.flow_spec().len() == self.flow@.len());
        assert(my_tier <= self.flow@.len());
        assert(self.flow@.len() == self.flow.len());
        let t = self.read_tier(ps, items[j])->0;
        assert(t < my_tier);
        assert(s.min <= t);
        assert(s.min != usize::MAX);
        let jm = choose|jm: int| 0 <= jm < items.len() && #[trigger] self.read_tier(ps, items[jm]) == Some(s.min as nat);
        assert(self.read_tier(ps, items[jm]) == Some(s.min as nat));
        assert(r.last().footers == self.choices_footers(s.min));
    }
}

/// What the lint reports for the `requires` header, item by item and
/// whatever the items' positions: every item that names a proposal whose
/// preamble could not be read draws its own message, and those are the only
/// messages but the last; every item that names a read proposal whose
/// `status` tier is lower than this proposal's is annotated in one last
/// message, whose annotations mark only such items, and that message is
/// raised exactly when such an item exists; its footer names the status
/// values whose tier is at most the lowest tier among the read proposals.
pub proof fn law_requires_status_exact(lint: RequiresStatus, slug: Seq<char>, ctx: &Context)
    requires
        lint.admits(ctx),
    ensures
        match find_field(ctx.preamble@, lint.requires@) {
            None => lint.spec_lint(slug, ctx).len() == 0,
            Some(f) => {
                let r = lint.spec_lint(slug, ctx);
                let items = split(f.value, ',');
                let ps = ctx.proposals@;
                let level = ctx.annotation_level;
                let origin = ctx.origin_view();
                &&& forall|j: int| #[trigger] lint.unread_item(slug, ctx, f, j) ==> exists|i: int|
                    0 <= i < lint.unread_count(slug, ctx, f) && lint.unread_message(level, slug, origin, f, ps, j)
                        == Some(#[trigger] r[i])
                &&& forall|i: int|
                    0 <= i < lint.unread_count(slug, ctx, f) ==> lint.is_unread_message(slug, ctx, f, #[trigger] r[i])
                &&& (exists|j: int| #[trigger] lint.unstable_item(ctx, f, j)) ==> {
                    &&& r.len() > 0
                    &&& r.last().title == "preamble header `"@ + lint.requires@
                        + "` contains items not stable enough for a `"@ + lint.status@ + "` of `"@
                        + lint.status_text(ctx.preamble@) + "`"@
                    &&& forall|j: int| #[trigger] lint.unstable_item(ctx, f, j) ==> r.last().snippets[0].annotations.contains(
                        item_annotation(level, f, j),
                    )
                    &&& forall|a: int|
                        0 <= a < r.last().snippets[0].annotations.len() ==> exists|j: int|
                            #[trigger] lint.unstable_item(ctx, f, j) && #[trigger] r.last().snippets[0].annotations[a]
                                == item_annotation(level, f, j)
                    &&& exists|m: int|
                        #![trigger lint.choices_footers(m)]
                        (forall|j: int|
                            0 <= j < items.len() && #[trigger] lint.read_tier(ps, items[j]) is Some ==> m
                                <= lint.read_tier(ps, items[j])->0) && (exists|j: int|
                            0 <= j < items.len() && #[trigger] lint.read_tier(ps, items[j]) == Some(m as nat))
                            && r.last().footers == lint.choices_footers(m)
                }
                &&& (forall|j: int| !#[trigger] lint.unstable_item(ctx, f, j)) ==> lint.unread_count(slug, ctx, f) == r.len()
            },
        },
{
    match find_field(ctx.preamble@, lint.requires@) {
        None => {},
        Some(f) => {
            lint.lemma_law_unread(slug, ctx, f);
            if exists|j: int| #[trigger] lint.unstable_item(ctx, f, j) {
                lint.lemma_law_unstable(slug, ctx, f);
            }
        },
    }
}

} // verus!
