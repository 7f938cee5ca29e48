//! Headers that every proposal must have.

use vstd::prelude::*;

use crate::lints::{join, join_strings, lint_message, message_one, no_messages, strings_view, vec1, Context};
use crate::preamble::find_field;
use crate::snippets::{Message, MessageView, SnippetView};
use crate::text::concat3;

verus! {

/// Each of the named headers must be present.
#[derive(Debug, Clone)]
pub struct Required(pub Vec<String>);

/// The names among the first `k` that no header has, in order.
pub open spec fn missing_names(names: Seq<Seq<char>>, fields: Seq<crate::preamble::FieldView>, k: int) -> Seq<Seq<char>>
    decreases k,
{
    if k <= 0 {
        seq![]
    } else {
        let prev = missing_names(names, fields, k - 1);
        if find_field(fields, names[k - 1]) is None {
            prev.push(names[k - 1])
        } else {
            prev
        }
    }
}

/// The folded snippet of the opening `---` line.
pub open spec fn opening_snippet(origin: Option<Seq<char>>) -> SnippetView {
    SnippetView { source: "---"@, line_start: 1, origin, fold: true, annotations: seq![] }
}

impl Required {
    /// One message listing the missing headers, when their joined names
    /// are not empty.
    pub open spec fn spec_lint(&self, slug: Seq<char>, ctx: &Context) -> Seq<MessageView> {
        let names = strings_view(self.0@);
        let missing = join(missing_names(names, ctx.preamble@, names.len() as int), "`, `"@);
        if missing.len() == 0 {
            seq![]
        } else {
            seq![
                lint_message(
                    ctx.annotation_level,
                    slug,
                    "preamble is missing header(s): `"@ + missing + "`"@,
                    seq![opening_snippet(ctx.origin_view())],
                    seq![],
                ),
            ]
        }
    }

    pub fn lint(&self, slug: &str, ctx: &Context) -> (r: Vec<Message>)
        requires
            ctx.wf(),
        ensures
            r@.map_values(|m: Message| m@) == self.spec_lint(slug@, ctx),
    {
        let ghost names = strings_view(self.0@);
        let mut missing: Vec<String> = Vec::new();
        let mut i: usize = 0;
        while i < self.0.len()
            invariant
                i <= self.0@.len(),
                names == strings_view(self.0@),
                strings_view(missing@) == missing_names(names, ctx.preamble@, i as int),
            decreases self.0@.len() - i,
        {
            if ctx.preamble().by_name(self.0[i].as_str()).is_none() {
                missing.push(self.0[i].clone());
            }
            assert(strings_view(missing@) =~= missing_names(names, ctx.preamble@, i + 1));
            i += 1;
        }
        let joined = join_strings(&missing, "`, `");
        if joined.as_str().is_empty() {
            return no_messages();
        }
        let title = concat3("preamble is missing header(s): `", joined.as_str(), "`");
        let snip = crate::snippets::snippet("---", 1, ctx.origin(), true, Vec::new());
        let r = vec1(message_one(ctx.annotation_level(), slug, title, snip));
        proof {
            reveal_strlit("---");
            reveal_strlit("`, `");
            reveal_strlit("`");
            reveal_strlit("preamble is missing header(s): `");
            assert(snip@.annotations =~= seq![]);
            assert(r@.map_values(|m: Message| m@) =~= self.spec_lint(slug@, ctx));
        }
        r
    }
}

/// Some header of `fields` has the name `name`.
pub open spec fn has_header(fields: Seq<crate::preamble::FieldView>, name: Seq<char>) -> bool {
    exists|i: int| 0 <= i < fields.len() && #[trigger] fields[i].name == name
}

proof fn lemma_find_field_has_header(fields: Seq<crate::preamble::FieldView>, name: Seq<char>)
    ensures
        find_field(fields, name) is None <==> !has_header(fields, name),
{
    crate::preamble::lemma_find_field_in(fields, name);
    if let Some(x) = find_field(fields, name) {
        let i = choose|i: int| 0 <= i < fields.len() && fields[i] == x;
        assert(fields[i].name == name);
    }
}

proof fn lemma_missing_names(names: Seq<Seq<char>>, fields: Seq<crate::preamble::FieldView>, k: int)
    requires
        0 <= k <= names.len(),
    ensures
        forall|i: int| 0 <= i < missing_names(names, fields, k).len() ==> {
            &&& !has_header(fields, #[trigger] missing_names(names, fields, k)[i])
            &&& exists|j: int| 0 <= j < k && names[j] == missing_names(names, fields, k)[i]
        },
        forall|j: int| 0 <= j < k && !has_header(fields, #[trigger] names[j]) ==> missing_names(names, fields, k).contains(names[j]),
    decreases k,
{
    if k > 0 {
        lemma_missing_names(names, fields, k - 1);
        lemma_find_field_has_header(fields, names[k - 1]);
        let prev = missing_names(names, fields, k - 1);
        let m = missing_names(names, fields, k);
        assert forall|i: int| 0 <= i < m.len() implies {
            &&& !has_header(fields, #[trigger] m[i])
            &&& exists|j: int| 0 <= j < k && names[j] == m[i]
        } by {
            if i < prev.len() {
                assert(m[i] == prev[i]);
                let j = choose|j: int| 0 <= j < k - 1 && names[j] == prev[i];
                assert(names[j] == m[i]);
            } else {
                assert(m[i] == names[k - 1]);
            }
        }
        assert forall|j: int| 0 <= j < k && !has_header(fields, #[trigger] names[j]) implies m.contains(names[j]) by {
            if j < k - 1 {
                let i = choose|i: int| 0 <= i < prev.len() && prev[i] == names[j];
                assert(m[i] == prev[i]);
            } else {
                assert(m[m.len() - 1] == names[k - 1]);
            }
        }
    }
}

proof fn lemma_join_empty(items: Seq<Seq<char>>, sep: Seq<char>)
    ensures
        join(items, sep).len() == 0 ==> forall|i: int| 0 <= i < items.len() ==> (#[trigger] items[i]).len() == 0,
    decreases items.len(),
{
    if items.len() > 1 {
        lemma_join_empty(items.drop_last(), sep);
        assert forall|i: int| 0 <= i < items.len() && join(items, sep).len() == 0 implies (#[trigger] items[i]).len() == 0 by {
            if i < items.len() - 1 {
                assert(items[i] == items.drop_last()[i]);
            }
        }
    }
}

/// The missing names among the first `k` are those names, in order, that no
/// header has.
proof fn lemma_missing_names_filter(names: Seq<Seq<char>>, fields: Seq<crate::preamble::FieldView>, k: int)
    requires
        0 <= k <= names.len(),
    ensures
        missing_names(names, fields, k) == names.take(k).filter(|n: Seq<char>| !has_header(fields, n)),
    decreases k,
{
    reveal(Seq::filter);
    let pred = |n: Seq<char>| !has_header(fields, n);
    if k > 0 {
        lemma_missing_names_filter(names, fields, k - 1);
        lemma_find_field_has_header(fields, names[k - 1]);
        let t = names.take(k);
        assert(t.drop_last() =~= names.take(k - 1));
        assert(t.last() == names[k - 1]);
        assert(t.filter(pred) == if pred(t.last()) {
            t.drop_last().filter(pred).push(t.last())
        } else {
            t.drop_last().filter(pred)
        });
    } else {
        assert(names.take(k) =~= Seq::<Seq<char>>::empty());
    }
}

/// The missing names are the listed names, in their order, that no header
/// of the preamble has: a listed name is among them exactly when no header
/// has that name, and every one of them is a listed one that no header has.
/// When every listed header is present nothing is reported; when one with a
/// non-empty name is absent, exactly one message is raised, and it lists the
/// missing names.
pub proof fn law_required_lists_absent(lint: Required, slug: Seq<char>, ctx: &Context)
    ensures
        ({
            let names = strings_view(lint.0@);
            let fields = ctx.preamble@;
            let missing = missing_names(names, fields, names.len() as int);
            let r = lint.spec_lint(slug, ctx);
            &&& missing == names.filter(|n: Seq<char>| !has_header(fields, n))
            &&& forall|j: int| 0 <= j < lint.0@.len() ==> (missing.contains(#[trigger] lint.0@[j]@) <==> !has_header(fields, lint.0@[j]@))
            &&& forall|i: int| 0 <= i < missing.len() ==> !has_header(fields, #[trigger] missing[i]) && names.contains(missing[i])
            &&& (forall|j: int| 0 <= j < lint.0@.len() ==> has_header(fields, #[trigger] lint.0@[j]@)) ==> r.len() == 0
            &&& (exists|j: int| 0 <= j < lint.0@.len() && lint.0@[j]@.len() > 0 && !has_header(fields, #[trigger] lint.0@[j]@)) ==> {
                &&& r.len() == 1
                &&& r[0].title == "preamble is missing header(s): `"@ + join(missing, "`, `"@) + "`"@
            }
        }),
{
    let names = strings_view(lint.0@);
    let fields = ctx.preamble@;
    let missing = missing_names(names, fields, names.len() as int);
    lemma_missing_names(names, fields, names.len() as int);
    lemma_missing_names_filter(names, fields, names.len() as int);
    assert(names.take(names.len() as int) =~= names);
    assert forall|j: int| 0 <= j < lint.0@.len() implies (missing.contains(#[trigger] lint.0@[j]@) <==> !has_header(fields, lint.0@[j]@)) by {
        assert(names[j] == lint.0@[j]@);
        if missing.contains(lint.0@[j]@) {
            let i = choose|i: int| 0 <= i < missing.len() && missing[i] == lint.0@[j]@;
            assert(!has_header(fields, missing[i]));
        }
    }
    assert forall|i: int| 0 <= i < missing.len() implies !has_header(fields, #[trigger] missing[i]) && names.contains(missing[i]) by {
        let j = choose|j: int| 0 <= j < names.len() && names[j] == missing[i];
    }
    if forall|j: int| 0 <= j < lint.0@.len() ==> has_header(fields, #[trigger] lint.0@[j]@) {
        if missing.len() > 0 {
            let j = choose|j: int| 0 <= j < names.len() && names[j] == missing[0];
            assert(names[j] == lint.0@[j]@);
            assert(has_header(fields, lint.0@[j]@));
            assert(!has_header(fields, missing[0]));
        }
        assert(missing.len() == 0);
    }
    if exists|j: int| 0 <= j < lint.0@.len() && lint.0@[j]@.len() > 0 && !has_header(fields, #[trigger] lint.0@[j]@) {
        let j = choose|j: int| 0 <= j < lint.0@.len() && lint.0@[j]@.len() > 0 && !has_header(fields, #[trigger] lint.0@[j]@);
        assert(names[j] == lint.0@[j]@);
        let i = choose|i: int| 0 <= i < missing.len() && missing[i] == names[j];
        lemma_join_empty(missing, "`, `"@);
        assert(join(missing, "`, `"@).len() != 0);
    }
}

} // verus!
