//! The proposals listed in a header must be referenced in the body.

use vstd::prelude::*;

use crate::lints::markdown::proposal_ref::{node_captures, node_refs};
use crate::lints::preamble::proposal_ref::reference_pattern;
use crate::lints::{
    field_snippet, field_snippet_spec, get_field, line_span, line_span_spec, lint_message, message_one, no_messages,
    result_view, vec1, Context, Error,
};
use crate::pattern::{groups_view, regex_compiles, regex_error, CaptureView, Pattern};
use crate::preamble::{find_field, FieldView};
use crate::snippets::{annotations_view, Annotation, AnnotationView, Level, Message, MessageView};
use crate::text::{
    blen, byte_len, chars_of, concat3, lemma_split_offsets, parse_u64, parse_unsigned, piece_offset, split, split_chars,
    trim, trim_chars, trim_start,
};
use crate::tree::Node;

verus! {

/// Every proposal listed (by number) in the named header must be
/// referenced (`EIP-N` or `ERC-N`) in the text of the body.
#[derive(Debug, Clone)]
pub struct RequireReferenced {
    pub requires: String,
}

/// The number a reference names, as a `u64`.
pub open spec fn reference_u64(g: Seq<Option<CaptureView>>) -> Option<nat> {
    if g.len() > 1 && g[1] is Some {
        parse_unsigned(g[1]->0.text, u64::MAX as int)
    } else {
        None
    }
}

/// The numbers (as `u64`) that the first `k` references name, in order.
pub open spec fn numbers_u64(refs: Seq<Seq<Option<CaptureView>>>, k: int) -> Seq<nat>
    decreases k,
{
    if k <= 0 {
        seq![]
    } else {
        match reference_u64(refs[k - 1]) {
            Some(n) => numbers_u64(refs, k - 1).push(n),
            None => numbers_u64(refs, k - 1),
        }
    }
}

/// The numbers (as `u64`) that the references of the first `i` nodes
/// name, in order.
pub open spec fn body_numbers_u64(b: Seq<Node>, i: int) -> Seq<nat>
    decreases i,
{
    if i <= 0 {
        seq![]
    } else {
        let refs = node_refs(b[i - 1]);
        body_numbers_u64(b, i - 1) + numbers_u64(refs, refs.len() as int)
    }
}

/// The byte at which the trimmed item `k` of header `f` starts in its line.
pub open spec fn item_start(f: FieldView, k: int) -> int {
    let items = split(f.value, ',');
    let item = items[k];
    blen(f.name) + piece_offset(items, k) + 1 + (blen(item) - blen(trim_start(item)))
}

/// The annotations of the first `k` items of header `f` that name a
/// number (as `u64`) that `referenced` lacks.
pub open spec fn unreferenced(level: Level, f: FieldView, referenced: Set<nat>, k: int) -> Seq<AnnotationView>
    decreases k,
{
    if k <= 0 {
        seq![]
    } else {
        let prev = unreferenced(level, f, referenced, k - 1);
        let item = split(f.value, ',')[k - 1];
        match parse_unsigned(trim(item), u64::MAX as int) {
            None => prev,
            Some(v) => if referenced.contains(v) {
                prev
            } else {
                prev.push(line_span_spec(level, f, item_start(f, k - 1), blen(trim(item)) as int, "not referenced in body"@))
            },
        }
    }
}

impl RequireReferenced {
    /// Nothing when the header is absent; an error when the pattern of a
    /// reference does not compile; otherwise, when some listed number is
    /// not referenced in the body, one message marking each such item.
    pub open spec fn spec_lint(&self, slug: Seq<char>, ctx: &Context) -> Result<Seq<MessageView>, Seq<char>> {
        match find_field(ctx.preamble@, self.requires@) {
            None => Ok(seq![]),
            Some(f) => if !regex_compiles(reference_pattern()) {
                Err(regex_error(reference_pattern()))
            } else {
                let referenced = body_numbers_u64(ctx.body@, ctx.body@.len() as int).to_set();
                let anns = unreferenced(ctx.annotation_level, f, referenced, split(f.value, ',').len() as int);
                if anns.len() == 0 {
                    Ok(seq![])
                } else {
                    Ok(
                        seq![
                            lint_message(
                                ctx.annotation_level,
                                slug,
                                "proposals listed in preamble header `"@ + self.requires@ + "` must be referenced in the body"@,
                                seq![field_snippet_spec(f, ctx.origin_view(), anns)],
                                seq![],
                            ),
                        ],
                    )
                }
            },
        }
    }

    pub fn lint(&self, slug: &str, ctx: &Context) -> (r: Result<Vec<Message>, Error>)
        requires
            ctx.wf(),
        ensures
            result_view(r) == self.spec_lint(slug@, ctx),
    {
        let field = match get_field(ctx, self.requires.as_str()) {
            None => return Ok(no_messages()),
            Some(f) => f,
        };
        let re = match crate::lints::preamble::ProposalRef::regex() {
            Ok(re) => re,
            Err(message) => return Err(Error::Custom { message }),
        };
        let referenced = referenced_numbers(&re, &ctx.body);
        let ghost rset = body_numbers_u64(ctx.body@, ctx.body@.len() as int).to_set();
        let level = ctx.annotation_level();
        let anns = unreferenced_items(level, field, &referenced, Ghost(rset));
        if anns.len() == 0 {
            return Ok(no_messages());
        }
        let title = concat3("proposals listed in preamble header `", self.requires.as_str(), "` must be referenced in the body");
        proof {
            reveal_strlit("proposals listed in preamble header `");
            reveal_strlit("` must be referenced in the body");
        }
        let snip = field_snippet(field, ctx.origin(), anns);
        let m = message_one(level, slug, title, snip);
        let r = vec1(m);
        assert(r@.map_values(|m: Message| m@) =~= seq![m@]);
        Ok(r)
    }
}

/// The annotations of the items of header `field` that name a number
/// (as `u64`) that `referenced` lacks.
#[verifier::rlimit(40)]
fn unreferenced_items(level: Level, field: &crate::preamble::Field, referenced: &Vec<u64>, rset: Ghost<Set<nat>>) -> (r: Vec<Annotation>)
    requires
        field@.wf(),
        rset@ == referenced@.map_values(|v: u64| v as nat).to_set(),
    ensures
        annotations_view(r@) == unreferenced(level, field@, rset@, split(field@.value, ',').len() as int),
{
    let value = chars_of(field.value());
    let items = split_chars(value.as_slice(), ',');
    let ghost sitems = split(field@.value, ',');
    proof {
        lemma_split_offsets(field@.value, ',');
    }
    let name_count = crate::text::str_byte_len(field.name());
    let mut anns: Vec<Annotation> = Vec::new();
    let mut offset: usize = 0;
    let mut i: usize = 0;
    while i < items.len()
        invariant
            field@.wf(),
            sitems == split(field@.value, ','),
            items@.len() == sitems.len(),
            forall|j: int| 0 <= j < items@.len() ==> #[trigger] items@[j]@ == sitems[j],
            forall|j: int|
                0 <= j < sitems.len() ==> piece_offset(sitems, j) + blen(#[trigger] sitems[j]) <= blen(field@.value),
            name_count == blen(field@.name),
            rset@ == referenced@.map_values(|v: u64| v as nat).to_set(),
            i <= items@.len(),
            offset == piece_offset(sitems, i as int),
            annotations_view(anns@) == unreferenced(level, field@, rset@, i as int),
        decreases items@.len() - i,
    {
        let item = &items[i];
        assert(item@ == sitems[i as int]);
        assert(piece_offset(sitems, i as int) + blen(sitems[i as int]) <= blen(field@.value));
        let item_count = byte_len(item.as_slice());
        let found = item_annotation(level, field, item, offset, name_count, referenced, Ghost(i as int), rset);
        if let Some(ann) = found {
            let ghost before = annotations_view(anns@);
            anns.push(ann);
            assert(annotations_view(anns@) =~= before.push(ann@));
        }
        offset = offset + item_count + 1;
        i += 1;
    }
    anns
}

/// The annotation of item `k` of header `field`, when it names a number
/// (as `u64`) that `referenced` lacks.
fn item_annotation(
    level: Level,
    field: &crate::preamble::Field,
    item: &Vec<char>,
    offset: usize,
    name_count: usize,
    referenced: &Vec<u64>,
    k: Ghost<int>,
    rset: Ghost<Set<nat>>,
) -> (r: Option<Annotation>)
    requires
        field@.wf(),
        0 <= k@ < split(field@.value, ',').len(),
        item@ == split(field@.value, ',')[k@],
        offset == piece_offset(split(field@.value, ','), k@),
        offset + blen(item@) <= blen(field@.value),
        name_count == blen(field@.name),
        rset@ == referenced@.map_values(|v: u64| v as nat).to_set(),
    ensures
        match parse_unsigned(trim(item@), u64::MAX as int) {
            None => r is None,
            Some(v) => if rset@.contains(v) {
                r is None
            } else {
                r matches Some(a) && a@ == line_span_spec(
                    level,
                    field@,
                    item_start(field@, k@),
                    blen(trim(item@)) as int,
                    "not referenced in body"@,
                )
            },
        },
{
    proof {
        crate::text::lemma_trim_bound(item@);
    }
    let t = trim_chars(item.as_slice());
    let v = match parse_u64(t.as_slice()) {
        Some(v) => v,
        None => return None,
    };
    let found = contains_u64(referenced, v);
    proof {
        let rv = referenced@.map_values(|x: u64| x as nat);
        if found {
            let j = choose|j: int| 0 <= j < referenced@.len() && referenced@[j] == v;
            assert(rv[j] == v as nat);
            assert(rv.contains(v as nat));
        } else {
            assert forall|j: int| 0 <= j < rv.len() implies rv[j] != v as nat by {
                assert(rv[j] == referenced@[j] as nat);
            }
        }
    }
    if found {
        return None;
    }
    let a = crate::text::trim_start_index(item.as_slice());
    let head = vstd::slice::slice_subrange(item.as_slice(), 0, a);
    proof {
        assert(head@ =~= item@.take(a as int));
        crate::text::lemma_blen_split(item@, a as int);
    }
    let leading = byte_len(head);
    let len = byte_len(t.as_slice());
    proof {
        reveal_strlit("not referenced in body");
    }
    Some(line_span(level, field, name_count + offset + 1 + leading, len, "not referenced in body"))
}

/// The numbers (as `u64`) that the references in the body name, in order.
fn referenced_numbers(re: &Pattern, b: &Vec<Node>) -> (r: Vec<u64>)
    requires
        re@ == reference_pattern(),
    ensures
        r@.map_values(|v: u64| v as nat) == body_numbers_u64(b@, b@.len() as int),
{
    let mut r: Vec<u64> = Vec::new();
    let mut i: usize = 0;
    assert(r@.map_values(|v: u64| v as nat) =~= body_numbers_u64(b@, 0));
    while i < b.len()
        invariant
            re@ == reference_pattern(),
            i <= b@.len(),
            r@.map_values(|v: u64| v as nat) == body_numbers_u64(b@, i as int),
        decreases b@.len() - i,
    {
        let caps = node_captures(re, &b[i]);
        let ghost refs = node_refs(b@[i as int]);
        let ghost start = r@.map_values(|v: u64| v as nat);
        let mut j: usize = 0;
        while j < caps.len()
            invariant
                refs == node_refs(b@[i as int]),
                caps@.len() == refs.len(),
                forall|k: int| 0 <= k < caps@.len() ==> groups_view(#[trigger] caps@[k]@) == refs[k],
                j <= caps@.len(),
                r@.map_values(|v: u64| v as nat) == start + numbers_u64(refs, j as int),
            decreases caps@.len() - j,
        {
            let g = &caps[j];
            assert(groups_view(g@) == refs[j as int]);
            let ghost before = r@.map_values(|v: u64| v as nat);
            if g.len() >= 2 {
                assert(refs[j as int][1] == crate::pattern::opt_capture_view(g@[1]));
                if let Some(c) = &g[1] {
                    let t = chars_of(c.text.as_str());
                    if let Some(v) = parse_u64(t.as_slice()) {
                        r.push(v);
                        assert(r@.map_values(|v: u64| v as nat) =~= before.push(v as nat));
                    }
                }
            }
            assert(start + numbers_u64(refs, j + 1) =~= r@.map_values(|v: u64| v as nat)) by {
                assert(start + numbers_u64(refs, j as int).push(0) =~= (start + numbers_u64(refs, j as int)).push(0));
                match reference_u64(refs[j as int]) {
                    Some(n) => assert(start + numbers_u64(refs, j as int).push(n) =~= (start + numbers_u64(refs, j as int)).push(n)),
                    None => {},
                }
            }
            j += 1;
        }
        i += 1;
    }
    r
}

/// Whether `n` is among the numbers.
fn contains_u64(v: &Vec<u64>, n: u64) -> (r: bool)
    ensures
        r == exists|j: int| 0 <= j < v@.len() && v@[j] == n,
{
    let mut i: usize = 0;
    while i < v.len()
        invariant
            i <= v@.len(),
            forall|j: int| 0 <= j < i ==> v@[j] != n,
        decreases v@.len() - i,
    {
        if v[i] == n {
            return true;
        }
        i += 1;
    }
    false
}

/// Item `k` of header `f` names a number (as `u64`) that `referenced` lacks.
pub open spec fn item_unreferenced(f: FieldView, referenced: Set<nat>, k: int) -> bool {
    let item = split(f.value, ',')[k];
    parse_unsigned(trim(item), u64::MAX as int) is Some && !referenced.contains(parse_unsigned(trim(item), u64::MAX as int)->0)
}

/// The annotation marking item `k` of header `f` as not referenced.
pub open spec fn unreferenced_annotation(level: Level, f: FieldView, k: int) -> AnnotationView {
    let item = split(f.value, ',')[k];
    line_span_spec(level, f, item_start(f, k), blen(trim(item)) as int, "not referenced in body"@)
}

/// The annotations of the first `k` items are, in order, those of the items
/// naming a number that `referenced` lacks.
proof fn lemma_unreferenced_filter(level: Level, f: FieldView, referenced: Set<nat>, k: int)
    requires
        0 <= k,
    ensures
        unreferenced(level, f, referenced, k) == Seq::new(k as nat, |i: int| i).filter(
            |i: int| item_unreferenced(f, referenced, i),
        ).map_values(|i: int| unreferenced_annotation(level, f, i)),
    decreases k,
{
    reveal(Seq::filter);
    let pred = |i: int| item_unreferenced(f, referenced, i);
    let ann = |i: int| unreferenced_annotation(level, f, i);
    let t = Seq::new(k as nat, |i: int| i);
    if k > 0 {
        lemma_unreferenced_filter(level, f, referenced, k - 1);
        assert(t.drop_last() =~= Seq::new((k - 1) as nat, |i: int| i));
        assert(t.last() == k - 1);
        let sub = t.drop_last().filter(pred);
        assert(t.filter(pred) == if pred(t.last()) {
            sub.push(t.last())
        } else {
            sub
        });
        assert(sub.push(t.last()).map_values(ann) =~= sub.map_values(ann).push(ann(t.last())));
    } else {
        assert(t =~= Seq::<int>::empty());
        assert(t.filter(pred) =~= Seq::<int>::empty());
        assert(t.filter(pred).map_values(ann) =~= Seq::<AnnotationView>::empty());
    }
}

/// With the header present and the pattern compiling, the lint raises a
/// message exactly when some item, wherever it stands, names a number that
/// the body does not reference; its annotations mark every such item, in
/// order, and no other.
pub proof fn law_require_referenced_body_exact(lint: RequireReferenced, slug: Seq<char>, ctx: &Context)
    ensures
        match find_field(ctx.preamble@, lint.requires@) {
            None => lint.spec_lint(slug, ctx) == Ok::<Seq<MessageView>, Seq<char>>(seq![]),
            Some(f) => regex_compiles(reference_pattern()) ==> {
                let referenced = body_numbers_u64(ctx.body@, ctx.body@.len() as int).to_set();
                let anns = Seq::new(split(f.value, ',').len(), |i: int| i).filter(
                    |i: int| item_unreferenced(f, referenced, i),
                ).map_values(|i: int| unreferenced_annotation(ctx.annotation_level, f, i));
                lint.spec_lint(slug, ctx) == Ok::<Seq<MessageView>, Seq<char>>(
                    if anns.len() == 0 {
                        seq![]
                    } else {
                        seq![
                            lint_message(
                                ctx.annotation_level,
                                slug,
                                "proposals listed in preamble header `"@ + lint.requires@
                                    + "` must be referenced in the body"@,
                                seq![field_snippet_spec(f, ctx.origin_view(), anns)],
                                seq![],
                            ),
                        ]
                    },
                )
            },
        },
{
    if let Some(f) = find_field(ctx.preamble@, lint.requires@) {
        let referenced = body_numbers_u64(ctx.body@, ctx.body@.len() as int).to_set();
        lemma_unreferenced_filter(ctx.annotation_level, f, referenced, split(f.value, ',').len() as int);
    }
}

} // verus!
