//! References to other proposals in a header must use the prefix that the
//! referenced proposal's category calls for.

use vstd::prelude::*;

use crate::lints::{
    field_snippet1, field_snippet_spec, find_proposal, get_field, lint_message, message_one,
    no_messages, result_view, vec1, Context, Error, Proposal,
};
use crate::pattern::{
    captures, compile, groups_of, groups_view, is_match_of, regex_captures, regex_compiles,
    regex_error, CaptureView, Pattern,
};
use crate::preamble::{find_field, FieldView};
use crate::snippets::{span, AnnotationView, Level, Message, MessageView};
use crate::text::{blen, char_index, chars_eq, chars_of, concat, concat3, parse_u32, parse_unsigned, trim, trim_str};

verus! {

/// Proposals referenced in the named header (`EIP-N` or `ERC-N`) must be
/// written `ERC-N` when their category is `ERC`, and `EIP-N` otherwise.
#[derive(Debug, Clone)]
pub struct ProposalRef(pub String);

/// The pattern of a reference to a proposal.
pub open spec fn reference_pattern() -> Seq<char> {
    "(?i)\\b(?:eip|erc)-([0-9]+)\\b"@
}

/// The number a reference names, as a `u32`.
pub open spec fn reference_number(g: Seq<Option<CaptureView>>) -> Option<nat> {
    if g.len() > 1 && g[1] is Some {
        parse_unsigned(g[1]->0.text, u32::MAX as int)
    } else {
        None
    }
}

/// A reference names a `u32` number whose proposal was read.
pub open spec fn reference_read(g: Seq<Option<CaptureView>>, proposals: Seq<Proposal>) -> bool {
    match reference_number(g) {
        Some(n) => find_proposal(proposals, n as u32) is Some,
        None => false,
    }
}

/// The numbers that the first `k` references name, in order.
pub open spec fn reference_numbers(caps: Seq<Seq<Option<CaptureView>>>, k: int) -> Seq<nat>
    decreases k,
{
    if k <= 0 {
        seq![]
    } else {
        match reference_number(caps[k - 1]) {
            Some(n) => reference_numbers(caps, k - 1).push(n),
            None => reference_numbers(caps, k - 1),
        }
    }
}

/// The number of characters of `s` before byte offset `b`.
pub open spec fn chars_before(s: Seq<char>, b: int) -> int {
    choose|k: int| 0 <= k <= s.len() && blen(s.take(k)) == b
}

/// The annotation of a reference `whole` in header `f`, by characters.
pub open spec fn reference_span(level: Level, f: FieldView, whole: CaptureView) -> AnnotationView {
    AnnotationView {
        level,
        start: chars_before(f.value, whole.start) + f.name.len() + 1,
        end: chars_before(f.value, whole.end) + f.name.len() + 1,
        label: Some("referenced here"@),
    }
}

/// The trimmed category of a proposal, if it has one.
pub open spec fn category_of(fields: Seq<FieldView>) -> Option<Seq<char>> {
    match find_field(fields, "category"@) {
        Some(c) => Some(trim(c.value)),
        None => None,
    }
}

/// The prefix a reference to a proposal of that category must use.
pub open spec fn prefix_for(category: Option<Seq<char>>) -> Seq<char> {
    if category == Some("ERC"@) {
        "ERC"@
    } else {
        "EIP"@
    }
}

/// The message, if any, for the reference `g` in header `f`.
pub open spec fn reference_messages(
    level: Level,
    slug: Seq<char>,
    origin: Option<Seq<char>>,
    f: FieldView,
    proposals: Seq<Proposal>,
    g: Seq<Option<CaptureView>>,
) -> Seq<MessageView> {
    let whole = g[0]->0;
    let number = g[1]->0.text;
    let url = "eip-"@ + number + ".md"@;
    let snippets = seq![field_snippet_spec(f, origin, seq![reference_span(level, f, whole)])];
    let prop = find_proposal(proposals, reference_number(g)->0 as u32)->0;
    match prop.preamble {
        None => seq![lint_message(level, slug, "unable to read file `"@ + url + "`: "@ + prop.error@, snippets, seq![])],
        Some(pre) => {
            let category = category_of(pre@);
            let prefix = prefix_for(category);
            if whole.text.len() >= prefix.len() && whole.text.take(prefix.len() as int) == prefix {
                seq![]
            } else {
                let category_msg = match category {
                    Some(c) => "with a `category` of `"@ + c + "`"@,
                    None => "without a `category`"@,
                };
                seq![
                    lint_message(
                        level,
                        slug,
                        "references to proposals "@ + category_msg + " must use a prefix of `"@ + prefix + "`"@,
                        snippets,
                        seq![],
                    ),
                ]
            }
        },
    }
}

/// The messages for the first `k` references.
pub open spec fn references_messages(
    level: Level,
    slug: Seq<char>,
    origin: Option<Seq<char>>,
    f: FieldView,
    proposals: Seq<Proposal>,
    caps: Seq<Seq<Option<CaptureView>>>,
    k: int,
) -> Seq<MessageView>
    decreases k,
{
    if k <= 0 {
        seq![]
    } else {
        references_messages(level, slug, origin, f, proposals, caps, k - 1) + reference_messages(
            level,
            slug,
            origin,
            f,
            proposals,
            caps[k - 1],
        )
    }
}

impl ProposalRef {
    /// Compiles the pattern of a reference.
    pub fn regex() -> (r: Result<Pattern, String>)
        ensures
            r is Ok <==> regex_compiles(reference_pattern()),
            r matches Ok(p) ==> p@ == reference_pattern(),
            r matches Err(e) ==> e@ == regex_error(reference_pattern()),
    {
        proof {
            reveal_strlit("(?i)\\b(?:eip|erc)-([0-9]+)\\b");
        }
        compile("(?i)\\b(?:eip|erc)-([0-9]+)\\b")
    }

    /// Every reference names a `u32` number whose proposal was read.
    pub open spec fn admits(&self, ctx: &Context) -> bool {
        match find_field(ctx.preamble@, self.0@) {
            None => true,
            Some(f) => regex_compiles(reference_pattern()) ==> {
                let caps = regex_captures(reference_pattern(), f.value);
                forall|i: int| 0 <= i < caps.len() ==> #[trigger] reference_read(caps[i], ctx.proposals@)
            },
        }
    }

    /// Nothing when the header is absent; an error when the pattern of a
    /// reference does not compile; otherwise, for each reference in turn, a
    /// message when the referenced proposal could not be read, or when the
    /// reference does not begin with the prefix its category calls for.
    pub open spec fn spec_lint(&self, slug: Seq<char>, ctx: &Context) -> Result<Seq<MessageView>, Seq<char>> {
        match find_field(ctx.preamble@, self.0@) {
            None => Ok(seq![]),
            Some(f) => if !regex_compiles(reference_pattern()) {
                Err(regex_error(reference_pattern()))
            } else {
                let caps = regex_captures(reference_pattern(), f.value);
                Ok(references_messages(ctx.annotation_level, slug, ctx.origin_view(), f, ctx.proposals@, caps, caps.len() as int))
            },
        }
    }

    /// The lint, where every reference names a proposal that was read.
    pub fn lint(&self, slug: &str, ctx: &Context) -> (r: Result<Vec<Message>, Error>)
        requires
            ctx.wf(),
            self.admits(ctx),
        ensures
            result_view(r) == self.spec_lint(slug@, ctx),
    {
        let field = match get_field(ctx, self.0.as_str()) {
            None => return Ok(no_messages()),
            Some(f) => f,
        };
        let re = match Self::regex() {
            Ok(re) => re,
            Err(message) => return Err(Error::Custom { message }),
        };
        let caps = captures(&re, field.value());
        let ghost scaps = regex_captures(reference_pattern(), field@.value);
        let value = chars_of(field.value());
        let name_chars = chars_of(field.name());
        proof {
            crate::text::lemma_len_le_blen(field@.name);
            crate::text::lemma_len_le_blen(field@.value);
        }
        let level = ctx.annotation_level();
        let mut msgs: Vec<Message> = Vec::new();
        let mut i: usize = 0;
        assert(forall|j: int| 0 <= j < scaps.len() ==> #[trigger] reference_read(scaps[j], ctx.proposals@));
        while i < caps.len()
            invariant
                field@.wf(),
                forall|j: int| 0 <= j < scaps.len() ==> #[trigger] reference_read(scaps[j], ctx.proposals@),
                value@ == field@.value,
                name_chars@ == field@.name,
                scaps == regex_captures(reference_pattern(), field@.value),
                caps@.len() == scaps.len(),
                forall|j: int| 0 <= j < caps@.len() ==> groups_view(#[trigger] caps@[j]@) == scaps[j],
                forall|j: int|
                    #![trigger scaps[j]]
                    0 <= j < caps@.len() ==> {
                        &&& scaps[j].len() >= 1
                        &&& scaps[j][0] is Some
                        &&& groups_of(scaps[j], field@.value)
                    },
                i <= caps@.len(),
                msgs@.map_values(|m: Message| m@) == references_messages(level, slug@, ctx.origin_view(), field@, ctx.proposals@, scaps, i as int),
            decreases caps@.len() - i,
        {
            let g = &caps[i];
            let ghost gv = scaps[i as int];
            assert(groups_view(g@) == gv);
            assert(reference_read(gv, ctx.proposals@));
            assert(gv[0] == crate::pattern::opt_capture_view(g@[0]));
            assert(gv[1] == crate::pattern::opt_capture_view(g@[1]));
            let whole = match &g[0] {
                Some(w) => w,
                None => {
                    assert(false);
                    return Ok(msgs);
                },
            };
            let number = match &g[1] {
                Some(c) => c,
                None => {
                    assert(false);
                    return Ok(msgs);
                },
            };
            let ann = reference_annotation(level, field, &value, &name_chars, whole);
            let snip = field_snippet1(field, ctx.origin(), ann);
            let digits = chars_of(number.text.as_str());
            let n = match parse_u32(digits.as_slice()) {
                Some(n) => n,
                None => {
                    assert(false);
                    return Ok(msgs);
                },
            };
            let prop = match ctx.proposal(n) {
                Some(p) => p,
                None => {
                    assert(false);
                    return Ok(msgs);
                },
            };
            let ghost before = msgs@.map_values(|m: Message| m@);
            let found = self.message_for(level, slug, ctx, prop, whole.text.as_str(), number.text.as_str(), snip);
            match found {
                Some(m) => {
                    msgs.push(m);
                    assert(msgs@.map_values(|m: Message| m@) =~= before + seq![m@]);
                },
                None => {
                    assert(msgs@.map_values(|m: Message| m@) =~= before + seq![]);
                },
            }
            i += 1;
        }
        Ok(msgs)
    }

    /// The message, if any, for one reference.
    fn message_for(
        &self,
        level: Level,
        slug: &str,
        ctx: &Context,
        prop: &Proposal,
        whole: &str,
        number: &str,
        snip: crate::snippets::Snippet,
    ) -> (r: Option<Message>)
        ensures
            ({
                let url = "eip-"@ + number@ + ".md"@;
                match prop.preamble {
                    None => r matches Some(m) && m@ == lint_message(level, slug@, "unable to read file `"@ + url + "`: "@ + prop.error@, seq![snip@], seq![]),
                    Some(pre) => {
                        let category = category_of(pre@);
                        let prefix = prefix_for(category);
                        if whole@.len() >= prefix.len() && whole@.take(prefix.len() as int) == prefix {
                            r is None
                        } else {
                            let category_msg = match category {
                                Some(c) => "with a `category` of `"@ + c + "`"@,
                                None => "without a `category`"@,
                            };
                            r matches Some(m) && m@ == lint_message(
                                level,
                                slug@,
                                "references to proposals "@ + category_msg + " must use a prefix of `"@ + prefix + "`"@,
                                seq![snip@],
                                seq![],
                            )
                        }
                    },
                }
            }),
    {
        let pre = match &prop.preamble {
            None => {
                let url = concat3("eip-", number, ".md");
                let title = concat3("unable to read file `", url.as_str(), "`: ");
                let title = concat(title.as_str(), prop.error.as_str());
                proof {
                    reveal_strlit("eip-");
                    reveal_strlit(".md");
                    reveal_strlit("unable to read file `");
                    reveal_strlit("`: ");
                }
                return Some(message_one(level, slug, title, snip));
            },
            Some(p) => p,
        };
        let category: Option<Vec<char>> = match pre.by_name("category") {
            Some(c) => Some(trim_str(c.value())),
            None => None,
        };
        let erc = chars_of("ERC");
        let is_erc = match &category {
            Some(c) => chars_eq(c.as_slice(), erc.as_slice()),
            None => false,
        };
        let prefix: &str = if is_erc { "ERC" } else { "EIP" };
        proof {
            reveal_strlit("ERC");
            reveal_strlit("EIP");
            reveal_strlit("category");
            assert(category_of(pre@) == match category { Some(c) => Some(c@), None => None::<Seq<char>> });
        }
        let w = chars_of(whole);
        let p = chars_of(prefix);
        let mut starts = false;
        if w.len() >= p.len() {
            let head = vstd::slice::slice_subrange(w.as_slice(), 0, p.len());
            assert(head@ =~= w@.take(p@.len() as int));
            starts = chars_eq(head, p.as_slice());
        }
        if starts {
            return None;
        }
        let category_msg = match &category {
            Some(c) => {
                let c = crate::text::string_of(c.as_slice());
                concat3("with a `category` of `", c.as_str(), "`")
            },
            None => String::from_str("without a `category`"),
        };
        let title = concat3("references to proposals ", category_msg.as_str(), " must use a prefix of `");
        let title = concat3(title.as_str(), prefix, "`");
        proof {
            reveal_strlit("with a `category` of `");
            reveal_strlit("`");
            reveal_strlit("without a `category`");
            reveal_strlit("references to proposals ");
            reveal_strlit(" must use a prefix of `");
        }
        Some(message_one(level, slug, title, snip))
    }

    /// The numbers that the references in the header name (as `u32`), in
    /// order; none when the header is absent or the pattern does not
    /// compile.
    pub open spec fn wanted(&self, ctx: &Context) -> Seq<nat> {
        match find_field(ctx.preamble@, self.0@) {
            None => seq![],
            Some(f) => if !regex_compiles(reference_pattern()) {
                seq![]
            } else {
                let caps = regex_captures(reference_pattern(), f.value);
                reference_numbers(caps, caps.len() as int)
            },
        }
    }

    /// The numbers of the proposals the lint reads.
    pub fn find_resources(&self, ctx: &Context) -> (r: Vec<u32>)
        requires
            ctx.wf(),
        ensures
            r@.map_values(|n: u32| n as nat) == self.wanted(ctx),
    {
        let mut r: Vec<u32> = Vec::new();
        let field = match get_field(ctx, self.0.as_str()) {
            None => {
                assert(r@.map_values(|n: u32| n as nat) =~= self.wanted(ctx));
                return r;
            },
            Some(f) => f,
        };
        let re = match Self::regex() {
            Ok(re) => re,
            Err(_) => {
                assert(r@.map_values(|n: u32| n as nat) =~= self.wanted(ctx));
                return r;
            },
        };
        let caps = captures(&re, field.value());
        let ghost scaps = regex_captures(reference_pattern(), field@.value);
        let mut i: usize = 0;
        while i < caps.len()
            invariant
                scaps == regex_captures(reference_pattern(), field@.value),
                caps@.len() == scaps.len(),
                forall|j: int| 0 <= j < caps@.len() ==> groups_view(#[trigger] caps@[j]@) == scaps[j],
                i <= caps@.len(),
                r@.map_values(|n: u32| n as nat) == reference_numbers(scaps, i as int),
            decreases caps@.len() - i,
        {
            let g = &caps[i];
            assert(groups_view(g@) == scaps[i as int]);
            let ghost before = r@;
            if g.len() >= 2 {
                assert(scaps[i as int][1] == crate::pattern::opt_capture_view(g@[1]));
                if let Some(c) = &g[1] {
                    let t = chars_of(c.text.as_str());
                    if let Some(n) = parse_u32(t.as_slice()) {
                        r.push(n);
                    }
                }
            }
            assert(r@.map_values(|n: u32| n as nat) =~= reference_numbers(scaps, i + 1));
            i += 1;
        }
        r
    }

    /// The lint, or none when a reference names no proposal that was read.
    pub fn check(&self, slug: &str, ctx: &Context) -> (r: Option<Result<Vec<Message>, Error>>)
        requires
            ctx.wf(),
        ensures
            r is None <==> !self.admits(ctx),
            r matches Some(x) ==> result_view(x) == self.spec_lint(slug@, ctx),
    {
        if let Some(field) = get_field(ctx, self.0.as_str()) {
            if let Ok(re) = Self::regex() {
                let caps = captures(&re, field.value());
                let ghost scaps = regex_captures(reference_pattern(), field@.value);
                let mut i: usize = 0;
                while i < caps.len()
                    invariant
                        scaps == regex_captures(reference_pattern(), field@.value),
                        caps@.len() == scaps.len(),
                        forall|j: int| 0 <= j < caps@.len() ==> groups_view(#[trigger] caps@[j]@) == scaps[j],
                        i <= caps@.len(),
                        forall|j: int| 0 <= j < i ==> #[trigger] reference_read(scaps[j], ctx.proposals@),
                        find_field(ctx.preamble@, self.0@) == Some(field@),
                        regex_compiles(reference_pattern()),
                    decreases caps@.len() - i,
                {
                    let g = &caps[i];
                    assert(groups_view(g@) == scaps[i as int]);
                    if g.len() < 2 {
                        assert(!reference_read(scaps[i as int], ctx.proposals@));
                        return None;
                    }
                    assert(scaps[i as int][1] == crate::pattern::opt_capture_view(g@[1]));
                    let n = match &g[1] {
                        None => {
                            assert(!reference_read(scaps[i as int], ctx.proposals@));
                            return None;
                        },
                        Some(c) => {
                            let t = chars_of(c.text.as_str());
                            match parse_u32(t.as_slice()) {
                                None => {
                                    assert(!reference_read(scaps[i as int], ctx.proposals@));
                                    return None;
                                },
                                Some(n) => n,
                            }
                        },
                    };
                    if ctx.proposal(n).is_none() {
                        assert(!reference_read(scaps[i as int], ctx.proposals@));
                        return None;
                    }
                    i += 1;
                }
            }
        }
        Some(self.lint(slug, ctx))
    }
}

/// The annotation of a reference, by characters.
fn reference_annotation(
    level: Level,
    field: &crate::preamble::Field,
    value: &Vec<char>,
    name_chars: &Vec<char>,
    whole: &crate::pattern::Capture,
) -> (r: crate::snippets::Annotation)
    requires
        field@.wf(),
        value@ == field@.value,
        name_chars@ == field@.name,
        is_match_of(whole@, field@.value),
    ensures
        r@ == reference_span(level, field@, whole@),
{
    proof {
        crate::text::lemma_len_le_blen(field@.name);
        crate::text::lemma_len_le_blen(field@.value);
        let (a, b) = choose|a: int, b: int|
            0 <= a <= b <= field@.value.len() && #[trigger] blen(field@.value.take(a)) == whole@.start
                && #[trigger] blen(field@.value.take(b)) == whole@.end && whole@.text == field@.value.subrange(a, b);
        assert(crate::text::is_boundary(field@.value, whole.start as int));
        assert(crate::text::is_boundary(field@.value, whole.end as int));
    }
    let a = char_index(value.as_slice(), whole.start);
    let b = char_index(value.as_slice(), whole.end);
    proof {
        lemma_chars_before(field@.value, whole.start as int, a as int);
        lemma_chars_before(field@.value, whole.end as int, b as int);
        reveal_strlit("referenced here");
    }
    span(level, a + name_chars.len() + 1, b + name_chars.len() + 1, Some(String::from_str("referenced here")))
}

/// The character count `k` before a boundary is the one `chars_before`
/// names.
pub proof fn lemma_chars_before(s: Seq<char>, b: int, k: int)
    requires
        0 <= k <= s.len(),
        blen(s.take(k)) == b,
    ensures
        chars_before(s, b) == k,
{
    let c = chars_before(s, b);
    assert(0 <= c <= s.len() && blen(s.take(c)) == b);
    if c < k {
        crate::text::lemma_blen_take_mono(s, c, k);
    } else if c > k {
        crate::text::lemma_blen_take_mono(s, k, c);
    }
}

/// Reading the proposals that `find_resources` names is enough for the
/// lint to run: when every reference in the header names a `u32` number
/// and every number the lint asks for was read, the lint admits the
/// proposal.
pub proof fn law_resources_suffice(l: &ProposalRef, ctx: &Context)
    requires
        find_field(ctx.preamble@, l.0@) matches Some(f) ==> forall|j: int|
            0 <= j < regex_captures(reference_pattern(), f.value).len()
                ==> #[trigger] reference_number(regex_captures(reference_pattern(), f.value)[j]) is Some,
        forall|k: int| 0 <= k < l.wanted(ctx).len() ==> find_proposal(ctx.proposals@, #[trigger] l.wanted(ctx)[k] as u32) is Some,
    ensures
        l.admits(ctx),
{
    if let Some(f) = find_field(ctx.preamble@, l.0@) {
        if regex_compiles(reference_pattern()) {
            let caps = regex_captures(reference_pattern(), f.value);
            assert forall|j: int| 0 <= j < caps.len() implies #[trigger] reference_read(caps[j], ctx.proposals@) by {
                assert(reference_number(caps[j]) is Some);
                crate::lints::markdown::proposal_ref::lemma_reference_numbers_has(caps, j, caps.len() as int);
                let w = choose|w: int| 0 <= w < l.wanted(ctx).len() && l.wanted(ctx)[w] == reference_number(caps[j])->0;
                assert(find_proposal(ctx.proposals@, l.wanted(ctx)[w] as u32) is Some);
            }
        }
    }
}

/// The messages for the first `k` references are those of each reference in
/// turn.
proof fn lemma_references_messages_flatten(
    level: Level,
    slug: Seq<char>,
    origin: Option<Seq<char>>,
    f: FieldView,
    proposals: Seq<Proposal>,
    caps: Seq<Seq<Option<CaptureView>>>,
    k: int,
)
    requires
        0 <= k <= caps.len(),
    ensures
        references_messages(level, slug, origin, f, proposals, caps, k) == Seq::new(
            k as nat,
            |i: int| reference_messages(level, slug, origin, f, proposals, caps[i]),
        ).flatten(),
    decreases k,
{
    let parts = Seq::new(k as nat, |i: int| reference_messages(level, slug, origin, f, proposals, caps[i]));
    parts.lemma_flatten_and_flatten_alt_are_equivalent();
    if k > 0 {
        lemma_references_messages_flatten(level, slug, origin, f, proposals, caps, k - 1);
        let prev = Seq::new((k - 1) as nat, |i: int| reference_messages(level, slug, origin, f, proposals, caps[i]));
        prev.lemma_flatten_and_flatten_alt_are_equivalent();
        assert(parts.drop_last() =~= prev);
    } else {
        assert(parts =~= Seq::<Seq<MessageView>>::empty());
    }
}

/// With the header present and the pattern compiling, the lint raises, for
/// each reference in the header in turn, wherever it stands, the messages of
/// that reference (that its proposal could not be read, or that it lacks the
/// prefix its category calls for), and no other.
pub proof fn law_proposal_ref_exact(lint: ProposalRef, slug: Seq<char>, ctx: &Context)
    ensures
        match find_field(ctx.preamble@, lint.0@) {
            None => lint.spec_lint(slug, ctx) == Ok::<Seq<MessageView>, Seq<char>>(seq![]),
            Some(f) => regex_compiles(reference_pattern()) ==> {
                let caps = regex_captures(reference_pattern(), f.value);
                lint.spec_lint(slug, ctx) == Ok::<Seq<MessageView>, Seq<char>>(
                    Seq::new(
                        caps.len(),
                        |i: int|
                            reference_messages(
                                ctx.annotation_level,
                                slug,
                                ctx.origin_view(),
                                f,
                                ctx.proposals@,
                                caps[i],
                            ),
                    ).flatten(),
                )
            },
        },
{
    if let Some(f) = find_field(ctx.preamble@, lint.0@) {
        let caps = regex_captures(reference_pattern(), f.value);
        lemma_references_messages_flatten(
            ctx.annotation_level,
            slug,
            ctx.origin_view(),
            f,
            ctx.proposals@,
            caps,
            caps.len() as int,
        );
    }
}

} // verus!
