//! Proposals named in one header must be listed in another.

use vstd::prelude::*;

use crate::lints::{
    field_snippet, field_snippet_spec, get_field, line_span, line_span_spec, lint_message,
    message_one, no_messages, result_view, vec1, Context, Error,
};
use crate::pattern::{
    captures, compile, groups_view, regex_captures, regex_compiles, regex_error, CaptureView,
};
use crate::preamble::{find_field, FieldView};
use crate::snippets::{annotations_view, Annotation, AnnotationView, Level, Message, MessageView};
use crate::text::{blen, chars_of, concat5, parse_u64, parse_unsigned, split, split_chars, trim, trim_chars};

verus! {

/// Every proposal the named header mentions (`eip-N` or `erc-N`, in any
/// case) must be listed in the `requires` header.
#[derive(Debug, Clone)]
pub struct RequireReferenced {
    pub name: String,
    pub requires: String,
}

/// The pattern of a mention of a proposal.
pub open spec fn mention_pattern() -> Seq<char> {
    "(?i)(?:eip|erc)-([0-9]+)"@
}

/// The numbers among the first `k` items, in order: the items that parse
/// as unsigned 64-bit integers once trimmed.
pub open spec fn item_numbers(items: Seq<Seq<char>>, k: int) -> Seq<nat>
    decreases k,
{
    if k <= 0 {
        seq![]
    } else {
        let prev = item_numbers(items, k - 1);
        match parse_unsigned(trim(items[k - 1]), u64::MAX as int) {
            Some(n) => prev.push(n),
            None => prev,
        }
    }
}

/// The numbers listed in a comma-separated text.
pub open spec fn listed_numbers(text: Seq<char>) -> Seq<nat> {
    item_numbers(split(text, ','), split(text, ',').len() as int)
}

/// The number a mention names: its group 1, read as a 64-bit number.
pub open spec fn mention_number(g: Seq<Option<CaptureView>>) -> Option<nat> {
    if g.len() > 1 && g[1] is Some {
        parse_unsigned(g[1]->0.text, u64::MAX as int)
    } else {
        None
    }
}

/// Every mention names a number that fits in 64 bits.
pub open spec fn mentions_fit(caps: Seq<Seq<Option<CaptureView>>>) -> bool {
    forall|i: int| 0 <= i < caps.len() ==> #[trigger] mention_number(caps[i]) is Some
}

/// The annotations of the first `k` mentions whose number is not in `listed`.
pub open spec fn unlisted_annotations(
    level: Level,
    f: FieldView,
    caps: Seq<Seq<Option<CaptureView>>>,
    listed: Seq<nat>,
    k: int,
) -> Seq<AnnotationView>
    decreases k,
{
    if k <= 0 {
        seq![]
    } else {
        let prev = unlisted_annotations(level, f, caps, listed, k - 1);
        let whole = caps[k - 1][0]->0;
        if listed.contains(mention_number(caps[k - 1])->0) {
            prev
        } else {
            prev.push(line_span_spec(level, f, whole.start + blen(f.name) + 1, whole.end - whole.start, "mentioned here"@))
        }
    }
}

impl RequireReferenced {
    /// The numbers listed in the `requires` header (none when it is absent).
    pub open spec fn listed(&self, ctx: &Context) -> Seq<nat> {
        match find_field(ctx.preamble@, self.requires@) {
            Some(r) => listed_numbers(r.value),
            None => listed_numbers(Seq::empty()),
        }
    }

    /// The mentions in the header read as 64-bit numbers (where they do
    /// not, the lint has nothing to say).
    pub open spec fn admits(&self, ctx: &Context) -> bool {
        match find_field(ctx.preamble@, self.name@) {
            Some(f) => regex_compiles(mention_pattern()) ==> mentions_fit(regex_captures(mention_pattern(), f.value)),
            None => true,
        }
    }

    /// Nothing when the header is absent; an error when the pattern of a
    /// mention does not compile; otherwise one message marking every
    /// mention of a proposal that `requires` does not list, if there is one.
    pub open spec fn spec_lint(&self, slug: Seq<char>, ctx: &Context) -> Result<Seq<MessageView>, Seq<char>> {
        let level = ctx.annotation_level;
        match find_field(ctx.preamble@, self.name@) {
            None => Ok(seq![]),
            Some(f) => if !regex_compiles(mention_pattern()) {
                Err(regex_error(mention_pattern()))
            } else {
                let caps = regex_captures(mention_pattern(), f.value);
                let anns = unlisted_annotations(level, f, caps, self.listed(ctx), caps.len() as int);
                if anns.len() == 0 {
                    Ok(seq![])
                } else {
                    Ok(seq![
                        lint_message(
                            level,
                            slug,
                            "proposals mentioned in preamble header `"@ + self.name@ + "` must appear in `"@
                                + self.requires@ + "`"@,
                            seq![field_snippet_spec(f, ctx.origin_view(), anns)],
                            seq![],
                        ),
                    ])
                }
            },
        }
    }

    /// The lint, where the mentions read as 64-bit numbers.
    pub fn lint(&self, slug: &str, ctx: &Context) -> (r: Result<Vec<Message>, Error>)
        requires
            ctx.wf(),
            self.admits(ctx),
        ensures
            result_view(r) == self.spec_lint(slug@, ctx),
    {
        let field = match get_field(ctx, self.name.as_str()) {
            None => return Ok(no_messages()),
            Some(f) => f,
        };
        let listed = self.listed_exec(ctx);
        let re = match compile("(?i)(?:eip|erc)-([0-9]+)") {
            Ok(re) => re,
            Err(message) => {
                proof {
                    reveal_strlit("(?i)(?:eip|erc)-([0-9]+)");
                }
                return Err(Error::Custom { message });
            },
        };
        proof {
            reveal_strlit("(?i)(?:eip|erc)-([0-9]+)");
        }
        let caps = captures(&re, field.value());
        let ghost scaps = regex_captures(mention_pattern(), field@.value);
        let level = ctx.annotation_level();
        let name_count = crate::text::str_byte_len(field.name());
        let mut anns: Vec<Annotation> = Vec::new();
        let mut i: usize = 0;
        while i < caps.len()
            invariant
                field@.wf(),
                name_count == blen(field@.name),
                scaps == regex_captures(mention_pattern(), field@.value),
                caps@.len() == scaps.len(),
                forall|j: int| 0 <= j < caps@.len() ==> groups_view(#[trigger] caps@[j]@) == scaps[j],
                forall|j: int|
                    #![trigger scaps[j]]
                    0 <= j < caps@.len() ==> {
                        &&& scaps[j].len() >= 1
                        &&& scaps[j][0] is Some
                        &&& crate::pattern::groups_of(scaps[j], field@.value)
                    },
                mentions_fit(scaps),
                listed@.map_values(|n: u64| n as nat) == self.listed(ctx),
                i <= caps@.len(),
                annotations_view(anns@) == unlisted_annotations(level, field@, scaps, self.listed(ctx), i as int),
            decreases caps@.len() - i,
        {
            let g = &caps[i];
            let ghost gv = scaps[i as int];
            assert(groups_view(g@) == gv);
            assert(mention_number(gv) is Some);
            assert(g@.len() == gv.len());
            assert(gv[0] == crate::pattern::opt_capture_view(g@[0]));
            assert(gv[1] == crate::pattern::opt_capture_view(g@[1]));
            let whole = match &g[0] {
                Some(w) => w,
                None => {
                    assert(false);
                    return Ok(no_messages());
                },
            };
            let number_text = match &g[1] {
                Some(c) => chars_of(c.text.as_str()),
                None => {
                    assert(false);
                    return Ok(no_messages());
                },
            };
            proof {
                assert(crate::pattern::groups_of(gv, field@.value));
                assert(gv[0] matches Some(c) ==> crate::pattern::is_match_of(c, field@.value));
                let c = gv[0]->0;
                let (a, b) = choose|a: int, b: int|
                    0 <= a <= b <= field@.value.len() && #[trigger] blen(field@.value.take(a)) == c.start
                        && #[trigger] blen(field@.value.take(b)) == c.end && c.text == field@.value.subrange(a, b);
                crate::text::lemma_blen_take_mono(field@.value, a, b);
                crate::text::lemma_blen_take_mono(field@.value, b, field@.value.len() as int);
                assert(field@.value.take(field@.value.len() as int) =~= field@.value);
            }
            let number = parse_u64(number_text.as_slice());
            let n = match number {
                Some(n) => n,
                None => {
                    assert(false);
                    return Ok(no_messages());
                },
            };
            let mut found = false;
            let mut j: usize = 0;
            while j < listed.len()
                invariant
                    j <= listed@.len(),
                    found <==> (exists|t: int| 0 <= t < j && listed@[t] == n),
                decreases listed@.len() - j,
            {
                if listed[j] == n {
                    found = true;
                }
                j += 1;
            }
            proof {
                let lm = listed@.map_values(|x: u64| x as nat);
                if found {
                    let t = choose|t: int| 0 <= t < listed@.len() && listed@[t] == n;
                    assert(lm[t] == n as nat);
                } else {
                    assert forall|t: int| 0 <= t < lm.len() implies lm[t] != n as nat by {
                        assert(listed@[t] != n);
                    }
                }
                assert(found == lm.contains(n as nat));
            }
            if !found {
                let ann = line_span(level, field, whole.start + name_count + 1, whole.end - whole.start, "mentioned here");
                proof {
                    reveal_strlit("mentioned here");
                }
                anns.push(ann);
            }
            assert(annotations_view(anns@) =~= unlisted_annotations(level, field@, scaps, self.listed(ctx), i + 1));
            i += 1;
        }
        if anns.len() == 0 {
            let r = no_messages();
            return Ok(r);
        }
        let title = concat5("proposals mentioned in preamble header `", self.name.as_str(), "` must appear in `", self.requires.as_str(), "`");
        let snip = field_snippet(field, ctx.origin(), anns);
        let r = vec1(message_one(level, slug, title, snip));
        proof {
            reveal_strlit("proposals mentioned in preamble header `");
            reveal_strlit("` must appear in `");
            reveal_strlit("`");
            assert(r@.map_values(|m: Message| m@) =~= self.spec_lint(slug@, ctx)->Ok_0);
        }
        Ok(r)
    }

    /// The lint, or none when a mention does not read as a 64-bit number.
    pub fn check(&self, slug: &str, ctx: &Context) -> (r: Option<Result<Vec<Message>, Error>>)
        requires
            ctx.wf(),
        ensures
            r is None <==> !self.admits(ctx),
            r matches Some(x) ==> result_view(x) == self.spec_lint(slug@, ctx),
    {
        if let Some(field) = get_field(ctx, self.name.as_str()) {
            if let Ok(re) = compile("(?i)(?:eip|erc)-([0-9]+)") {
                proof {
                    reveal_strlit("(?i)(?:eip|erc)-([0-9]+)");
                }
                let caps = captures(&re, field.value());
                let ghost scaps = regex_captures(mention_pattern(), field@.value);
                let mut i: usize = 0;
                while i < caps.len()
                    invariant
                        scaps == regex_captures(mention_pattern(), field@.value),
                        caps@.len() == scaps.len(),
                        forall|j: int| 0 <= j < caps@.len() ==> groups_view(#[trigger] caps@[j]@) == scaps[j],
                        i <= caps@.len(),
                        forall|j: int| 0 <= j < i ==> #[trigger] mention_number(scaps[j]) is Some,
                        find_field(ctx.preamble@, self.name@) == Some(field@),
                        regex_compiles(mention_pattern()),
                    decreases caps@.len() - i,
                {
                    let g = &caps[i];
                    assert(groups_view(g@) == scaps[i as int]);
                    if g.len() < 2 {
                        assert(mention_number(scaps[i as int]) is None);
                        return None;
                    }
                    assert(scaps[i as int][1] == crate::pattern::opt_capture_view(g@[1]));
                    match &g[1] {
                        None => {
                            assert(mention_number(scaps[i as int]) is None);
                            return None;
                        },
                        Some(c) => {
                            let t = chars_of(c.text.as_str());
                            if parse_u64(t.as_slice()).is_none() {
                                assert(mention_number(scaps[i as int]) is None);
                                return None;
                            }
                        },
                    }
                    i += 1;
                }
            } else {
                proof {
                    reveal_strlit("(?i)(?:eip|erc)-([0-9]+)");
                }
            }
        }
        Some(self.lint(slug, ctx))
    }

    fn listed_exec(&self, ctx: &Context) -> (r: Vec<u64>)
        ensures
            r@.map_values(|n: u64| n as nat) == self.listed(ctx),
    {
        let text: Vec<char> = match ctx.preamble().by_name(self.requires.as_str()) {
            Some(f) => chars_of(f.value()),
            None => Vec::new(),
        };
        let items = split_chars(text.as_slice(), ',');
        let ghost sitems = split(text@, ',');
        let mut r: Vec<u64> = Vec::new();
        let mut i: usize = 0;
        while i < items.len()
            invariant
                sitems == split(text@, ','),
                items@.len() == sitems.len(),
                forall|j: int| 0 <= j < items@.len() ==> #[trigger] items@[j]@ == sitems[j],
                i <= items@.len(),
                r@.map_values(|n: u64| n as nat) == item_numbers(sitems, i as int),
            decreases items@.len() - i,
        {
            let t = trim_chars(items[i].as_slice());
            if let Some(n) = parse_u64(t.as_slice()) {
                r.push(n);
            }
            assert(r@.map_values(|n: u64| n as nat) =~= item_numbers(sitems, i + 1));
            i += 1;
        }
        proof {
            if find_field(ctx.preamble@, self.requires@) is None {
                assert(text@ =~= Seq::<char>::empty());
            }
        }
        r
    }
}

/// The numbers of the first `k` items are, in order, those of the items
/// that parse as unsigned 64-bit integers once trimmed.
proof fn lemma_item_numbers_filter(items: Seq<Seq<char>>, k: int)
    requires
        0 <= k <= items.len(),
    ensures
        item_numbers(items, k) == items.take(k).filter(
            |it: Seq<char>| parse_unsigned(trim(it), u64::MAX as int) is Some,
        ).map_values(|it: Seq<char>| parse_unsigned(trim(it), u64::MAX as int)->0),
    decreases k,
{
    reveal(Seq::filter);
    let pred = |it: Seq<char>| parse_unsigned(trim(it), u64::MAX as int) is Some;
    let val = |it: Seq<char>| parse_unsigned(trim(it), u64::MAX as int)->0;
    let t = items.take(k);
    if k > 0 {
        lemma_item_numbers_filter(items, k - 1);
        assert(t.drop_last() =~= items.take(k - 1));
        assert(t.last() == items[k - 1]);
        let sub = t.drop_last().filter(pred);
        assert(t.filter(pred) == if pred(t.last()) {
            sub.push(t.last())
        } else {
            sub
        });
        assert(sub.push(t.last()).map_values(val) =~= sub.map_values(val).push(val(t.last())));
    } else {
        assert(t =~= Seq::<Seq<char>>::empty());
        assert(t.filter(pred) =~= Seq::<Seq<char>>::empty());
        assert(t.filter(pred).map_values(val) =~= Seq::<nat>::empty());
    }
}

/// The annotation marking mention `i` of header `f`.
pub open spec fn mention_annotation(level: Level, f: FieldView, caps: Seq<Seq<Option<CaptureView>>>, i: int) -> AnnotationView {
    let whole = caps[i][0]->0;
    line_span_spec(level, f, whole.start + blen(f.name) + 1, whole.end - whole.start, "mentioned here"@)
}

/// The annotations of the first `k` mentions are, in order, those of the
/// mentions whose number is not in `listed`.
proof fn lemma_unlisted_annotations_filter(
    level: Level,
    f: FieldView,
    caps: Seq<Seq<Option<CaptureView>>>,
    listed: Seq<nat>,
    k: int,
)
    requires
        0 <= k <= caps.len(),
    ensures
        unlisted_annotations(level, f, caps, listed, k) == Seq::new(k as nat, |i: int| i).filter(
            |i: int| !listed.contains(mention_number(caps[i])->0),
        ).map_values(|i: int| mention_annotation(level, f, caps, i)),
    decreases k,
{
    reveal(Seq::filter);
    let pred = |i: int| !listed.contains(mention_number(caps[i])->0);
    let ann = |i: int| mention_annotation(level, f, caps, i);
    let t = Seq::new(k as nat, |i: int| i);
    if k > 0 {
        lemma_unlisted_annotations_filter(level, f, caps, listed, k - 1);
        assert(t.drop_last() =~= Seq::new((k - 1) as nat, |i: int| i));
        assert(t.last() == k - 1);
        let sub = t.drop_last().filter(pred);
        assert(t.filter(pred) == if pred(t.last()) {
            sub.push(t.last())
        } else {
            sub
        });
        assert(sub.push(t.last()).map_values(ann) =~= sub.map_values(ann).push(ann(t.last())));
    } else {
        assert(t =~= Seq::<int>::empty());
        assert(t.filter(pred) =~= Seq::<int>::empty());
        assert(t.filter(pred).map_values(ann) =~= Seq::<AnnotationView>::empty());
    }
}

/// With the header present and the pattern compiling, the lint raises a
/// message exactly when some mention in the header names a number that none
/// of the `requires` items lists (an item lists the number it parses to, once
/// trimmed, wherever it stands); its annotations mark every such mention, in
/// order, and no other.
pub proof fn law_require_referenced_exact(lint: RequireReferenced, slug: Seq<char>, ctx: &Context)
    ensures
        match find_field(ctx.preamble@, lint.name@) {
            None => lint.spec_lint(slug, ctx) == Ok::<Seq<MessageView>, Seq<char>>(seq![]),
            Some(f) => regex_compiles(mention_pattern()) ==> {
                let caps = regex_captures(mention_pattern(), f.value);
                let req = match find_field(ctx.preamble@, lint.requires@) {
                    Some(r) => r.value,
                    None => Seq::empty(),
                };
                let listed = split(req, ',').filter(|it: Seq<char>| parse_unsigned(trim(it), u64::MAX as int) is Some).map_values(
                    |it: Seq<char>| parse_unsigned(trim(it), u64::MAX as int)->0,
                );
                let anns = Seq::new(caps.len(), |i: int| i).filter(|i: int| !listed.contains(mention_number(caps[i])->0)).map_values(
                    |i: int| mention_annotation(ctx.annotation_level, f, caps, i),
                );
                lint.spec_lint(slug, ctx) == Ok::<Seq<MessageView>, Seq<char>>(
                    if anns.len() == 0 {
                        seq![]
                    } else {
                        seq![
                            lint_message(
                                ctx.annotation_level,
                                slug,
                                "proposals mentioned in preamble header `"@ + lint.name@ + "` must appear in `"@
                                    + lint.requires@ + "`"@,
                                seq![field_snippet_spec(f, ctx.origin_view(), anns)],
                                seq![],
                            ),
                        ]
                    },
                )
            },
        },
{
    if let Some(f) = find_field(ctx.preamble@, lint.name@) {
        let req = match find_field(ctx.preamble@, lint.requires@) {
            Some(r) => r.value,
            None => Seq::empty(),
        };
        let items = split(req, ',');
        lemma_item_numbers_filter(items, items.len() as int);
        assert(items.take(items.len() as int) =~= items);
        assert(lint.listed(ctx) == listed_numbers(req));
        let caps = regex_captures(mention_pattern(), f.value);
        lemma_unlisted_annotations_filter(ctx.annotation_level, f, caps, lint.listed(ctx), caps.len() as int);
    }
}

} // verus!
