//! The proposals a proposal requires must be mentioned in its body.

use vstd::prelude::*;

use crate::lints::markdown::proposal_ref::{body_numbers, node_refs};
use crate::lints::preamble::proposal_ref::{reference_numbers, reference_pattern};
use crate::lints::preamble::requires_status::item_u32s;
use crate::lints::{
    field_snippet1, field_snippet_spec, get_field, join, line_span, line_span_spec, lint_message, message_one,
    no_messages, result_view, strings_view, vec1, Context, Error,
};
use crate::pattern::{regex_compiles, regex_error};
use crate::preamble::find_field;
use crate::snippets::{Message, MessageView};
use crate::text::{blen, chars_of, concat, concat3, decimal, parse_u32, split, split_chars, trim_chars, u64_to_string};

verus! {

/// Every proposal listed (by number) in the named header must be
/// referenced (`EIP-N` or `ERC-N`) in the text of the body.
#[derive(Debug, Clone)]
pub struct RequiresRefBody {
    pub requires: String,
}

/// The numbers among the first `k` that `refs` does not hold, in order.
pub open spec fn missing_numbers(required: Seq<nat>, refs: Set<nat>, k: int) -> Seq<nat>
    decreases k,
{
    if k <= 0 {
        seq![]
    } else {
        let prev = missing_numbers(required, refs, k - 1);
        if refs.contains(required[k - 1]) {
            prev
        } else {
            prev.push(required[k - 1])
        }
    }
}

/// `EIP-N` for each number.
pub open spec fn eip_names(numbers: Seq<nat>) -> Seq<Seq<char>> {
    numbers.map_values(|n: nat| "EIP-"@ + decimal(n))
}

impl RequiresRefBody {
    /// Nothing when the header is absent, lists no number, or every number
    /// it lists is referenced in the body; an error when the pattern of a
    /// reference does not compile; otherwise one message naming the
    /// missing proposals, in the header's order, and marking the header's
    /// value.
    pub open spec fn spec_lint(&self, slug: Seq<char>, ctx: &Context) -> Result<Seq<MessageView>, Seq<char>> {
        match find_field(ctx.preamble@, self.requires@) {
            None => Ok(seq![]),
            Some(f) => {
                let items = split(f.value, ',');
                let required = item_u32s(items, items.len() as int);
                if required.len() == 0 {
                    Ok(seq![])
                } else if !regex_compiles(reference_pattern()) {
                    Err(regex_error(reference_pattern()))
                } else {
                    let refs = body_numbers(ctx, ctx.body@.len() as int).to_set();
                    let missing = missing_numbers(required, refs, required.len() as int);
                    if missing.len() == 0 {
                        Ok(seq![])
                    } else {
                        Ok(
                            seq![
                                lint_message(
                                    ctx.annotation_level,
                                    slug,
                                    "proposals "@ + join(eip_names(missing), ", "@) + " must be mentioned in the body"@,
                                    seq![
                                        field_snippet_spec(
                                            f,
                                            ctx.origin_view(),
                                            seq![
                                                line_span_spec(
                                                    ctx.annotation_level,
                                                    f,
                                                    (blen(f.name) + 2) as int,
                                                    blen(f.value) as int,
                                                    "required here"@,
                                                ),
                                            ],
                                        ),
                                    ],
                                    seq![],
                                ),
                            ],
                        )
                    }
                }
            },
        }
    }

    pub fn lint(&self, slug: &str, ctx: &Context) -> (r: Result<Vec<Message>, Error>)
        requires
            ctx.wf(),
        ensures
            result_view(r) == self.spec_lint(slug@, ctx),
    {
        let field = match get_field(ctx, self.requires.as_str()) {
            None => return Ok(no_messages()),
            Some(f) => f,
        };
        let value = chars_of(field.value());
        let items = split_chars(value.as_slice(), ',');
        let ghost sitems = split(field@.value, ',');
        let mut required: Vec<u32> = Vec::new();
        let mut i: usize = 0;
        while i < items.len()
            invariant
                sitems == split(field@.value, ','),
                items@.len() == sitems.len(),
                forall|j: int| 0 <= j < items@.len() ==> #[trigger] items@[j]@ == sitems[j],
                i <= items@.len(),
                required@.map_values(|n: u32| n as nat) == item_u32s(sitems, i as int),
            decreases items@.len() - i,
        {
            let t = trim_chars(items[i].as_slice());
            if let Some(n) = parse_u32(t.as_slice()) {
                required.push(n);
            }
            assert(required@.map_values(|n: u32| n as nat) =~= item_u32s(sitems, i + 1));
            i += 1;
        }
        let ghost req = required@.map_values(|n: u32| n as nat);
        if required.len() == 0 {
            return Ok(no_messages());
        }
        let re = match crate::lints::preamble::ProposalRef::regex() {
            Ok(re) => re,
            Err(message) => return Err(Error::Custom { message }),
        };
        let refs = crate::lints::markdown::ProposalRef.find_resources(ctx);
        let ghost rset = body_numbers(ctx, ctx.body@.len() as int).to_set();
        let mut missing: Vec<u32> = Vec::new();
        let mut k: usize = 0;
        while k < required.len()
            invariant
                req == required@.map_values(|n: u32| n as nat),
                refs@.map_values(|n: u32| n as nat) == body_numbers(ctx, ctx.body@.len() as int),
                rset == body_numbers(ctx, ctx.body@.len() as int).to_set(),
                k <= required@.len(),
                missing@.map_values(|n: u32| n as nat) == missing_numbers(req, rset, k as int),
            decreases required@.len() - k,
        {
            let n = required[k];
            let found = contains_u32(&refs, n);
            assert(req[k as int] == n as nat);
            proof {
                let rv = refs@.map_values(|v: u32| v as nat);
                if found {
                    let j = choose|j: int| 0 <= j < refs@.len() && refs@[j] == n;
                    assert(rv[j] == n as nat);
                    assert(rv.contains(n as nat));
                } else {
                    assert forall|j: int| 0 <= j < rv.len() implies rv[j] != n as nat by {
                        assert(rv[j] == refs@[j] as nat);
                    }
                }
            }
            if !found {
                missing.push(n);
            }
            assert(missing@.map_values(|v: u32| v as nat) =~= missing_numbers(req, rset, k + 1));
            k += 1;
        }
        let ghost miss = missing@.map_values(|v: u32| v as nat);
        if missing.len() == 0 {
            return Ok(no_messages());
        }
        let names = eip_names_of(&missing);
        let joined = crate::lints::join_strings(&names, ", ");
        let title = concat3("proposals ", joined.as_str(), " must be mentioned in the body");
        proof {
            crate::text::lemma_len_le_blen(field@.name);
            reveal_strlit("proposals ");
            reveal_strlit(" must be mentioned in the body");
            reveal_strlit(", ");
        }
        let n = crate::text::str_byte_len(field.name());
        let v = crate::text::str_byte_len(field.value());
        let ann = line_span(ctx.annotation_level(), field, n + 2, v, "required here");
        proof {
            reveal_strlit("required here");
        }
        let snip = field_snippet1(field, ctx.origin(), ann);
        let m = message_one(ctx.annotation_level(), slug, title, snip);
        let r = vec1(m);
        assert(r@.map_values(|m: Message| m@) =~= seq![m@]);
        Ok(r)
    }
}

/// Whether `n` is among the numbers.
pub(crate) fn contains_u32(v: &Vec<u32>, n: u32) -> (r: bool)
    ensures
        r == exists|j: int| 0 <= j < v@.len() && v@[j] == n,
{
    let mut i: usize = 0;
    while i < v.len()
        invariant
            i <= v@.len(),
            forall|j: int| 0 <= j < i ==> v@[j] != n,
        decreases v@.len() - i,
    {
        if v[i] == n {
            return true;
        }
        i += 1;
    }
    false
}

/// `EIP-N` for each number.
fn eip_names_of(numbers: &Vec<u32>) -> (r: Vec<String>)
    ensures
        strings_view(r@) == eip_names(numbers@.map_values(|n: u32| n as nat)),
{
    let mut r: Vec<String> = Vec::new();
    let mut i: usize = 0;
    while i < numbers.len()
        invariant
            i <= numbers@.len(),
            strings_view(r@) == eip_names(numbers@.take(i as int).map_values(|n: u32| n as nat)),
        decreases numbers@.len() - i,
    {
        let d = u64_to_string(numbers[i] as u64);
        let name = concat("EIP-", d.as_str());
        proof {
            reveal_strlit("EIP-");
        }
        let ghost before = strings_view(r@);
        r.push(name);
        assert(numbers@.take(i + 1).map_values(|n: u32| n as nat) =~= numbers@.take(i as int).map_values(|n: u32| n as nat).push(numbers@[i as int] as nat));
        let ghost prev = numbers@.take(i as int).map_values(|n: u32| n as nat);
        assert(eip_names(prev.push(numbers@[i as int] as nat)) =~= eip_names(prev).push("EIP-"@ + decimal(numbers@[i as int] as nat)));
        assert(strings_view(r@) =~= before.push(name@));
        i += 1;
    }
    assert(numbers@.take(numbers@.len() as int) =~= numbers@);
    r
}

/// The missing numbers among the first `k` are those numbers, in order,
/// that `refs` does not hold.
proof fn lemma_missing_numbers_filter(required: Seq<nat>, refs: Set<nat>, k: int)
    requires
        0 <= k <= required.len(),
    ensures
        missing_numbers(required, refs, k) == required.take(k).filter(|n: nat| !refs.contains(n)),
    decreases k,
{
    reveal(Seq::filter);
    let pred = |n: nat| !refs.contains(n);
    let t = required.take(k);
    if k > 0 {
        lemma_missing_numbers_filter(required, refs, k - 1);
        assert(t.drop_last() =~= required.take(k - 1));
        assert(t.last() == required[k - 1]);
        let sub = t.drop_last().filter(pred);
        assert(t.filter(pred) == if pred(t.last()) {
            sub.push(t.last())
        } else {
            sub
        });
    } else {
        assert(t =~= Seq::<nat>::empty());
    }
}

/// With the header listing numbers and the pattern compiling, the lint
/// raises a message exactly when some listed number, wherever it stands, is
/// not referenced in the body, and that message names every such number, in
/// the header's order.
pub proof fn law_requires_ref_body_exact(lint: RequiresRefBody, slug: Seq<char>, ctx: &Context)
    ensures
        match find_field(ctx.preamble@, lint.requires@) {
            None => lint.spec_lint(slug, ctx) == Ok::<Seq<MessageView>, Seq<char>>(seq![]),
            Some(f) => {
                let items = split(f.value, ',');
                let required = item_u32s(items, items.len() as int);
                let refs = body_numbers(ctx, ctx.body@.len() as int).to_set();
                let missing = required.filter(|n: nat| !refs.contains(n));
                required.len() > 0 && regex_compiles(reference_pattern()) ==> match lint.spec_lint(slug, ctx) {
                    Ok(r) => {
                        &&& r.len() == 0 <==> forall|j: int| 0 <= j < required.len() ==> refs.contains(#[trigger] required[j])
                        &&& r.len() <= 1
                        &&& r.len() == 1 ==> r[0].title == "proposals "@ + join(eip_names(missing), ", "@)
                            + " must be mentioned in the body"@
                    },
                    Err(_) => false,
                }
            },
        },
{
    if let Some(f) = find_field(ctx.preamble@, lint.requires@) {
        let items = split(f.value, ',');
        let required = item_u32s(items, items.len() as int);
        let refs = body_numbers(ctx, ctx.body@.len() as int).to_set();
        let pred = |n: nat| !refs.contains(n);
        lemma_missing_numbers_filter(required, refs, required.len() as int);
        assert(required.take(required.len() as int) =~= required);
        let missing = required.filter(pred);
        if exists|j: int| 0 <= j < required.len() && !refs.contains(#[trigger] required[j]) {
            let j = choose|j: int| 0 <= j < required.len() && !refs.contains(#[trigger] required[j]);
            required.lemma_filter_contains(pred, j);
            assert(missing.len() > 0);
        } else if missing.len() > 0 {
            required.lemma_filter_pred(pred, 0);
            assert(missing.contains(missing[0]));
            required.lemma_filter_contains_rev(pred, missing[0]);
        }
    }
}

} // verus!
