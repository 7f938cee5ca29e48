//! The set of allowed headers and the order they must come in.

use vstd::prelude::*;

use crate::lints::{
    field_snippet, field_snippet0, field_snippet_spec, line_span, line_span_spec, lint_message,
    new_message, strings_view, Context,
};
use crate::preamble::{find_field, Field, FieldView};
use crate::snippets::{Level, Message, MessageView, Snippet, SnippetView};
use crate::text::{blen, chars_eq, chars_of, concat5, str_byte_len};

verus! {

/// Only the listed headers may appear, and in the listed order.
#[derive(Debug, Clone)]
pub struct Order(pub Vec<String>);

/// The views of a sequence of string slices.
pub open spec fn strs_view(v: Seq<&str>) -> Seq<Seq<char>> {
    v.map_values(|s: &str| s@)
}

/// The snippets of the first `k` headers whose name is not listed.
pub open spec fn unknown_snippets(
    level: Level,
    origin: Option<Seq<char>>,
    names: Seq<Seq<char>>,
    fields: Seq<FieldView>,
    k: int,
) -> Seq<SnippetView>
    decreases k,
{
    if k <= 0 {
        seq![]
    } else {
        let prev = unknown_snippets(level, origin, names, fields, k - 1);
        let f = fields[k - 1];
        if names.contains(f.name) {
            prev
        } else {
            prev.push(
                field_snippet_spec(
                    f,
                    origin,
                    seq![line_span_spec(level, f, 0, blen(f.name) as int, "unrecognized header"@)],
                ),
            )
        }
    }
}

/// The message for header `f`, found on an earlier line than the header
/// listed before it: it must come after `prev`, the name listed just
/// before its own.
pub open spec fn out_of_order_message(
    level: Level,
    slug: Seq<char>,
    origin: Option<Seq<char>>,
    prev: Seq<char>,
    f: FieldView,
) -> MessageView {
    lint_message(
        level,
        slug,
        "preamble header `"@ + f.name + "` must come after `"@ + prev + "`"@,
        seq![field_snippet_spec(f, origin, seq![])],
        seq![],
    )
}

/// Walking the first `k` listed names: the messages so far, and the line of
/// the last listed header found (0 before any).
pub open spec fn order_scan(
    level: Level,
    slug: Seq<char>,
    origin: Option<Seq<char>>,
    names: Seq<Seq<char>>,
    fields: Seq<FieldView>,
    k: int,
) -> (Seq<MessageView>, int)
    decreases k,
{
    if k <= 0 {
        (seq![], 0)
    } else {
        let (msgs, cur) = order_scan(level, slug, origin, names, fields, k - 1);
        match find_field(fields, names[k - 1]) {
            None => (msgs, cur),
            Some(f) => if f.line_start >= cur {
                (msgs, f.line_start)
            } else {
                (msgs.push(out_of_order_message(level, slug, origin, names[k - 2], f)), f.line_start)
            },
        }
    }
}

impl Order {
    /// One message marking every header that is not listed, if there is
    /// one; then, walking the listed names in order, one message for each
    /// listed header found on an earlier line than the listed header found
    /// before it, saying that it must come after the name listed just
    /// before its own.
    pub open spec fn spec_lint(&self, slug: Seq<char>, ctx: &Context) -> Seq<MessageView> {
        let level = ctx.annotation_level;
        let origin = ctx.origin_view();
        let names = strings_view(self.0@);
        let fields = ctx.preamble@;
        let unknowns = unknown_snippets(level, origin, names, fields, fields.len() as int);
        let first = if unknowns.len() == 0 {
            seq![]
        } else {
            seq![lint_message(level, slug, "preamble has extra header(s)"@, unknowns, seq![])]
        };
        first + order_scan(level, slug, origin, names, fields, names.len() as int).0
    }

    pub fn lint(&self, slug: &str, ctx: &Context) -> (r: Vec<Message>)
        requires
            ctx.wf(),
        ensures
            r@.map_values(|m: Message| m@) == self.spec_lint(slug@, ctx),
    {
        let level = ctx.annotation_level();
        let ghost names = strings_view(self.0@);
        let ghost fv = ctx.preamble@;
        let fields = &ctx.preamble().fields;
        // Headers that are not listed.
        let mut unknowns: Vec<Snippet> = Vec::new();
        let mut i: usize = 0;
        while i < fields.len()
            invariant
                ctx.wf(),
                fields == &ctx.preamble.fields,
                fv == ctx.preamble@,
                names == strings_view(self.0@),
                i <= fields@.len(),
                unknowns@.map_values(|s: Snippet| s@) == unknown_snippets(level, ctx.origin_view(), names, fv, i as int),
            decreases fields@.len() - i,
        {
            let field = &fields[i];
            assert(fv[i as int] == field@);
            assert(ctx.preamble.fields@[i as int]@.wf());
            if !self.lists(field.name()) {
                let ann = line_span(level, field, 0, str_byte_len(field.name()), "unrecognized header");
                proof {
                    reveal_strlit("unrecognized header");
                }
                unknowns.push(crate::lints::field_snippet1(field, ctx.origin(), ann));
            }
            assert(unknowns@.map_values(|s: Snippet| s@) =~= unknown_snippets(level, ctx.origin_view(), names, fv, i + 1));
            i += 1;
        }
        let mut r: Vec<Message> = Vec::new();
        if unknowns.len() > 0 {
            let m = new_message(level, slug, String::from_str("preamble has extra header(s)"), unknowns, Vec::new());
            proof {
                reveal_strlit("preamble has extra header(s)");
                assert(m@.footers =~= seq![]);
            }
            r.push(m);
        }
        let ghost r0 = r@.map_values(|m: Message| m@);
        proof {
            reveal_strlit("preamble has extra header(s)");
            assert(r0 =~= self.spec_lint(slug@, ctx).take(r0.len() as int));
        }
        // The order of the listed headers.
        let mut max_line: usize = 0;
        let mut k: usize = 0;
        while k < self.0.len()
            invariant
                ctx.wf(),
                fv == ctx.preamble@,
                names == strings_view(self.0@),
                k <= self.0@.len(),
                order_scan(level, slug@, ctx.origin_view(), names, fv, k as int).1 == max_line,
                r@.map_values(|m: Message| m@) == r0 + order_scan(level, slug@, ctx.origin_view(), names, fv, k as int).0,
            decreases self.0@.len() - k,
        {
            let ghost before = r@.map_values(|m: Message| m@);
            if let Some(field) = crate::lints::get_field(ctx, self.0[k].as_str()) {
                let cur = max_line;
                max_line = field.line_start();
                if max_line < cur {
                    assert(k > 0);
                    let title = concat5("preamble header `", field.name(), "` must come after `", self.0[k - 1].as_str(), "`");
                    let s = field_snippet0(field, ctx.origin());
                    let ghost sv = s@;
                    let m = new_message(level, slug, title, crate::lints::vec1(s), Vec::new());
                    proof {
                        reveal_strlit("preamble header `");
                        reveal_strlit("` must come after `");
                        reveal_strlit("`");
                        assert(m@.snippets =~= seq![sv]);
                        assert(m@.footers =~= seq![]);
                        assert(names[k - 1] == self.0@[k - 1]@);
                        assert(m@ == out_of_order_message(level, slug@, ctx.origin_view(), names[k - 1], field@));
                    }
                    r.push(m);
                    assert(r@.map_values(|m: Message| m@) =~= before.push(m@));
                }
            }
            k += 1;
        }
        proof {
            assert(r@.map_values(|m: Message| m@) =~= self.spec_lint(slug@, ctx));
        }
        r
    }

    /// Whether `name` is listed.
    fn lists(&self, name: &str) -> (r: bool)
        ensures
            r == strings_view(self.0@).contains(name@),
    {
        let target = chars_of(name);
        let mut i: usize = 0;
        while i < self.0.len()
            invariant
                i <= self.0@.len(),
                target@ == name@,
                forall|j: int| 0 <= j < i ==> self.0@[j]@ != name@,
            decreases self.0@.len() - i,
        {
            let c = chars_of(self.0[i].as_str());
            if chars_eq(c.as_slice(), target.as_slice()) {
                assert(strings_view(self.0@)[i as int] == name@);
                return true;
            }
            i += 1;
        }
        assert forall|j: int| 0 <= j < strings_view(self.0@).len() implies strings_view(self.0@)[j] != name@ by {
            assert(strings_view(self.0@)[j] == self.0@[j]@);
        }
        false
    }
}

impl Order {
    /// Some listed name is `n`.
    pub open spec fn listed(&self, n: Seq<char>) -> bool {
        exists|j: int| 0 <= j < self.0@.len() && #[trigger] self.0@[j]@ == n
    }
}

/// The snippet marking the name of header `f` as unrecognized.
pub open spec fn unrecognized_snippet(level: Level, origin: Option<Seq<char>>, f: FieldView) -> SnippetView {
    field_snippet_spec(f, origin, seq![line_span_spec(level, f, 0, blen(f.name) as int, "unrecognized header"@)])
}

/// The snippets gathered over the first `k` headers are, in order, those of
/// the headers whose name is not among `names`.
proof fn lemma_unknown_snippets_filter(
    level: Level,
    origin: Option<Seq<char>>,
    names: Seq<Seq<char>>,
    fields: Seq<FieldView>,
    k: int,
)
    requires
        0 <= k <= fields.len(),
    ensures
        unknown_snippets(level, origin, names, fields, k) == fields.take(k).filter(
            |f: FieldView| !names.contains(f.name),
        ).map_values(|f: FieldView| unrecognized_snippet(level, origin, f)),
    decreases k,
{
    reveal(Seq::filter);
    let pred = |f: FieldView| !names.contains(f.name);
    let snip = |f: FieldView| unrecognized_snippet(level, origin, f);
    if k > 0 {
        lemma_unknown_snippets_filter(level, origin, names, fields, k - 1);
        let t = fields.take(k);
        assert(t.drop_last() =~= fields.take(k - 1));
        assert(t.last() == fields[k - 1]);
        let sub = t.drop_last().filter(pred);
        assert(t.filter(pred) == if pred(t.last()) {
            sub.push(t.last())
        } else {
            sub
        });
        assert(sub.push(t.last()).map_values(snip) =~= sub.map_values(snip).push(snip(t.last())));
    } else {
        assert(fields.take(k) =~= Seq::<FieldView>::empty());
        assert(fields.take(k).filter(pred) =~= Seq::<FieldView>::empty());
        assert(fields.take(k).filter(pred).map_values(snip) =~= Seq::<SnippetView>::empty());
    }
}

/// The line of the header named by listed name `k`, when there is one.
pub open spec fn listed_line(names: Seq<Seq<char>>, fields: Seq<FieldView>, k: int) -> Option<int> {
    match find_field(fields, names[k]) {
        Some(f) => Some(f.line_start as int),
        None => None,
    }
}

/// Among the first `k` listed names, those that name a header name headers
/// on lines that do not decrease in the listed order.
pub open spec fn listed_in_order(names: Seq<Seq<char>>, fields: Seq<FieldView>, k: int) -> bool {
    forall|a: int, c: int|
        0 <= a < c < k && #[trigger] listed_line(names, fields, a) is Some && #[trigger] listed_line(names, fields, c)
            is Some ==> listed_line(names, fields, a)->0 <= listed_line(names, fields, c)->0
}

/// Walking the first `k` listed names, the scan keeps the line of the last
/// header found (0 before any), and raises a message exactly when the lines
/// of those found are not in order.
proof fn lemma_order_scan(
    level: Level,
    slug: Seq<char>,
    origin: Option<Seq<char>>,
    names: Seq<Seq<char>>,
    fields: Seq<FieldView>,
    k: int,
)
    requires
        0 <= k <= names.len(),
        forall|i: int| 0 <= i < fields.len() ==> #[trigger] fields[i].line_start >= 0,
    ensures
        ({
            let s = order_scan(level, slug, origin, names, fields, k);
            &&& (exists|a: int| 0 <= a < k && #[trigger] listed_line(names, fields, a) is Some) ==> exists|a: int|
                0 <= a < k && #[trigger] listed_line(names, fields, a) == Some(s.1) && forall|c: int|
                    a < c < k ==> #[trigger] listed_line(names, fields, c) is None
            &&& !(exists|a: int| 0 <= a < k && #[trigger] listed_line(names, fields, a) is Some) ==> s.1 == 0
            &&& s.0.len() == 0 <==> listed_in_order(names, fields, k)
            &&& listed_in_order(names, fields, k) ==> forall|a: int|
                0 <= a < k && #[trigger] listed_line(names, fields, a) is Some ==> listed_line(names, fields, a)->0 <= s.1
            &&& s.1 >= 0
        }),
    decreases k,
{
    if k > 0 {
        lemma_order_scan(level, slug, origin, names, fields, k - 1);
        let p = order_scan(level, slug, origin, names, fields, k - 1);
        let s = order_scan(level, slug, origin, names, fields, k);
        let last = k - 1;
        match find_field(fields, names[last]) {
            None => {
                assert(s == p);
                assert(listed_line(names, fields, last) is None);
                assert(listed_in_order(names, fields, k) == listed_in_order(names, fields, last)) by {
                    if listed_in_order(names, fields, last) {
                        assert forall|a: int, c: int|
                            0 <= a < c < k && #[trigger] listed_line(names, fields, a) is Some
                                && #[trigger] listed_line(names, fields, c) is Some implies listed_line(names, fields, a)->0
                            <= listed_line(names, fields, c)->0 by {
                            assert(c < last);
                        }
                    }
                }
            },
            Some(f) => {
                let line = f.line_start as int;
                crate::preamble::lemma_find_field_in(fields, names[last]);
                let fi = choose|fi: int| 0 <= fi < fields.len() && fields[fi] == f;
                assert(line >= 0);
                assert(listed_line(names, fields, last) == Some(line));
                assert(s.1 == line);
                if line >= p.1 {
                    assert(s.0 == p.0);
                    if listed_in_order(names, fields, last) {
                        assert forall|a: int, c: int|
                            0 <= a < c < k && #[trigger] listed_line(names, fields, a) is Some
                                && #[trigger] listed_line(names, fields, c) is Some implies listed_line(names, fields, a)->0
                            <= listed_line(names, fields, c)->0 by {
                            if c == last {
                                assert(listed_line(names, fields, a)->0 <= p.1);
                            }
                        }
                    } else {
                        let (a, c) = choose|a: int, c: int|
                            !(0 <= a < c < last && #[trigger] listed_line(names, fields, a) is Some
                                && #[trigger] listed_line(names, fields, c) is Some ==> listed_line(names, fields, a)->0
                            <= listed_line(names, fields, c)->0);
                        assert(!listed_in_order(names, fields, k));
                    }
                } else {
                    assert(s.0.len() == p.0.len() + 1);
                    let a = choose|a: int|
                        0 <= a < last && #[trigger] listed_line(names, fields, a) == Some(p.1) && forall|c: int|
                            a < c < last ==> #[trigger] listed_line(names, fields, c) is None;
                    assert(listed_line(names, fields, a) is Some);
                    assert(!listed_in_order(names, fields, k));
                }
                assert(exists|a: int| 0 <= a < k && #[trigger] listed_line(names, fields, a) == Some(s.1) && forall|c: int|
                    a < c < k ==> #[trigger] listed_line(names, fields, c) is None) by {
                    assert(listed_line(names, fields, last) == Some(s.1));
                }
            },
        }
    }
}

/// Every header whose name is none of the listed names, whether or not the
/// list is empty, is marked as unrecognized in a "preamble has extra
/// header(s)" message, which comes first and whose snippets mark exactly
/// those headers, in order; that message is raised exactly when such a
/// header exists; and besides it the lint reports something exactly when the
/// listed headers that the preamble has are out of order: when the line of
/// one comes before the line of one listed before it.
pub proof fn law_order_exact(lint: Order, slug: Seq<char>, ctx: &Context)
    ensures
        ({
            let fields = ctx.preamble@;
            let r = lint.spec_lint(slug, ctx);
            let extra = exists|i: int| 0 <= i < fields.len() && !lint.listed(#[trigger] fields[i].name);
            &&& extra ==> {
                &&& r.len() > 0
                &&& r[0].title == "preamble has extra header(s)"@
                &&& r[0].snippets == fields.filter(|f: FieldView| !lint.listed(f.name)).map_values(
                    |f: FieldView| unrecognized_snippet(ctx.annotation_level, ctx.origin_view(), f),
                )
            }
            &&& r.len() == (if extra { 1int } else { 0int }) <==> listed_in_order(
                strings_view(lint.0@),
                fields,
                lint.0@.len() as int,
            )
        }),
{
    let level = ctx.annotation_level;
    let origin = ctx.origin_view();
    let names = strings_view(lint.0@);
    let fields = ctx.preamble@;
    let u = unknown_snippets(level, origin, names, fields, fields.len() as int);
    assert forall|i: int| 0 <= i < fields.len() implies #[trigger] fields[i].line_start >= 0 by {
        assert(fields[i] == ctx.preamble.fields@[i]@);
    }
    lemma_order_scan(level, slug, origin, names, fields, names.len() as int);
    lemma_unknown_snippets_filter(level, origin, names, fields, fields.len() as int);
    assert(fields.take(fields.len() as int) =~= fields);
    let by_names = |f: FieldView| !names.contains(f.name);
    let by_list = |f: FieldView| !lint.listed(f.name);
    assert forall|f: FieldView| #[trigger] by_names(f) == by_list(f) by {
        if names.contains(f.name) {
            let q = choose|q: int| 0 <= q < names.len() && names[q] == f.name;
            assert(lint.0@[q]@ == f.name);
        }
        if lint.listed(f.name) {
            let q = choose|q: int| 0 <= q < lint.0@.len() && #[trigger] lint.0@[q]@ == f.name;
            assert(names[q] == f.name);
        }
    }
    assert(by_names =~= by_list);
    let filtered = fields.filter(by_list);
    if exists|i: int| 0 <= i < fields.len() && !lint.listed(#[trigger] fields[i].name) {
        let i = choose|i: int| 0 <= i < fields.len() && !lint.listed(#[trigger] fields[i].name);
        fields.lemma_filter_contains(by_list, i);
        assert(filtered.len() > 0);
        assert(u.len() > 0);
    } else {
        if filtered.len() > 0 {
            fields.lemma_filter_pred(by_list, 0);
            assert(filtered.contains(filtered[0]));
            fields.lemma_filter_contains_rev(by_list, filtered[0]);
            let i = choose|i: int| 0 <= i < fields.len() && fields[i] == filtered[0];
            assert(!lint.listed(fields[i].name));
        }
        assert(u.len() == 0);
    }
}

} // verus!
