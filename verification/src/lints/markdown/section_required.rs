//! Sections the body must have.

use vstd::prelude::*;

use crate::lints::markdown::section_texts;
use crate::lints::preamble::required::missing_names;
use crate::lints::{join, join_strings, lint_message, new_message, no_messages, strings_view, vec1, Context};
use crate::snippets::{footer, FooterView, Level, Message, MessageView, SnippetView};
use crate::text::concat3;

verus! {

/// Each listed section must be the text of a level-2 heading.
#[derive(Debug, Clone)]
pub struct SectionRequired(pub Vec<String>);

/// The listed names, in order, that are none of `present`.
pub open spec fn absent_names(names: Seq<Seq<char>>, present: Seq<Seq<char>>, k: int) -> Seq<Seq<char>>
    decreases k,
{
    if k <= 0 {
        seq![]
    } else if present.contains(names[k - 1]) {
        absent_names(names, present, k - 1)
    } else {
        absent_names(names, present, k - 1).push(names[k - 1])
    }
}

impl SectionRequired {
    /// One message naming, in order, the listed sections that no level-2
    /// heading has, when there is one; it shows the whole body, folded.
    pub open spec fn spec_lint(&self, slug: Seq<char>, ctx: &Context) -> Seq<MessageView> {
        let names = strings_view(self.0@);
        let missing = absent_names(names, section_texts(ctx.body@), names.len() as int);
        if missing.len() == 0 {
            seq![]
        } else {
            seq![
                lint_message(
                    ctx.annotation_level,
                    slug,
                    "body is missing section(s): `"@ + join(missing, "`, `"@) + "`"@,
                    seq![
                        SnippetView {
                            source: ctx.body_source@,
                            line_start: ctx.body@[0].start_line as int,
                            origin: ctx.origin_view(),
                            fold: true,
                            annotations: seq![],
                        },
                    ],
                    seq![FooterView { level: Level::Help, title: "must be at the second level (`## Heading`)"@ }],
                ),
            ]
        }
    }

    pub fn lint(&self, slug: &str, ctx: &Context) -> (r: Vec<Message>)
        requires
            ctx.body_wf(),
        ensures
            r@.map_values(|m: Message| m@) == self.spec_lint(slug@, ctx),
    {
        let (_, texts) = crate::lints::markdown::section_headings(&ctx.body);
        let ghost names = strings_view(self.0@);
        let ghost present = section_texts(ctx.body@);
        let mut missing: Vec<String> = Vec::new();
        let mut i: usize = 0;
        while i < self.0.len()
            invariant
                i <= self.0@.len(),
                names == strings_view(self.0@),
                strings_view(texts@) == present,
                strings_view(missing@) == absent_names(names, present, i as int),
            decreases self.0@.len() - i,
        {
            let name = self.0[i].as_str();
            let mut found = false;
            let mut j: usize = 0;
            while j < texts.len()
                invariant
                    j <= texts@.len(),
                    strings_view(texts@) == present,
                    found <==> exists|k: int| 0 <= k < j && texts@[k]@ == name@,
                decreases texts@.len() - j,
            {
                if crate::text::str_eq(texts[j].as_str(), name) {
                    found = true;
                }
                j += 1;
            }
            proof {
                if found {
                    let k = choose|k: int| 0 <= k < texts@.len() && texts@[k]@ == name@;
                    assert(present[k] == names[i as int]);
                } else {
                    assert forall|k: int| 0 <= k < present.len() implies present[k] != names[i as int] by {
                        assert(present[k] == texts@[k]@);
                    }
                }
            }
            if !found {
                missing.push(self.0[i].clone());
            }
            assert(strings_view(missing@) =~= absent_names(names, present, i + 1));
            i += 1;
        }
        if missing.len() == 0 {
            return no_messages();
        }
        let joined = join_strings(&missing, "`, `");
        let title = concat3("body is missing section(s): `", joined.as_str(), "`");
        let snip = crate::snippets::snippet(ctx.body_source(), ctx.body[0].start_line, ctx.origin(), true, Vec::new());
        assert(snip@.annotations =~= seq![]);
        let ghost sv = snip@;
        let foot = footer(Level::Help, String::from_str("must be at the second level (`## Heading`)"));
        let ghost fv = foot@;
        let m = new_message(ctx.annotation_level(), slug, title, vec1(snip), vec1(foot));
        let r = vec1(m);
        proof {
            reveal_strlit("body is missing section(s): `");
            reveal_strlit("`, `");
            reveal_strlit("`");
            reveal_strlit("must be at the second level (`## Heading`)");
            assert(m@.snippets =~= seq![sv]);
            assert(m@.footers =~= seq![fv]);
            assert(r@.map_values(|m: Message| m@) =~= self.spec_lint(slug@, ctx));
        }
        r
    }
}

/// The absent names among the first `k` are those names, in order, that
/// are none of `present`.
proof fn lemma_absent_names_filter(names: Seq<Seq<char>>, present: Seq<Seq<char>>, k: int)
    requires
        0 <= k <= names.len(),
    ensures
        absent_names(names, present, k) == names.take(k).filter(|n: Seq<char>| !present.contains(n)),
    decreases k,
{
    reveal(Seq::filter);
    let pred = |n: Seq<char>| !present.contains(n);
    let t = names.take(k);
    if k > 0 {
        lemma_absent_names_filter(names, present, k - 1);
        assert(t.drop_last() =~= names.take(k - 1));
        assert(t.last() == names[k - 1]);
        let sub = t.drop_last().filter(pred);
        assert(t.filter(pred) == if pred(t.last()) {
            sub.push(t.last())
        } else {
            sub
        });
    } else {
        assert(t =~= Seq::<Seq<char>>::empty());
    }
}

/// The lint reports nothing exactly when every listed name is the text of a
/// level-2 heading; otherwise one message naming, in the listed order, every
/// listed name that no level-2 heading has, wherever it stands in the list.
pub proof fn law_section_required_exact(lint: SectionRequired, slug: Seq<char>, ctx: &Context)
    ensures
        ({
            let r = lint.spec_lint(slug, ctx);
            let texts = section_texts(ctx.body@);
            let missing = strings_view(lint.0@).filter(|n: Seq<char>| !texts.contains(n));
            &&& r.len() == 0 <==> forall|j: int| 0 <= j < lint.0@.len() ==> texts.contains(#[trigger] lint.0@[j]@)
            &&& r.len() <= 1
            &&& r.len() == 1 ==> r[0].title == "body is missing section(s): `"@ + join(missing, "`, `"@) + "`"@
        }),
{
    let names = strings_view(lint.0@);
    let texts = section_texts(ctx.body@);
    let pred = |n: Seq<char>| !texts.contains(n);
    lemma_absent_names_filter(names, texts, names.len() as int);
    assert(names.take(names.len() as int) =~= names);
    let missing = names.filter(pred);
    if exists|j: int| 0 <= j < lint.0@.len() && !texts.contains(#[trigger] lint.0@[j]@) {
        let j = choose|j: int| 0 <= j < lint.0@.len() && !texts.contains(#[trigger] lint.0@[j]@);
        assert(names[j] == lint.0@[j]@);
        names.lemma_filter_contains(pred, j);
        assert(missing.len() > 0);
    } else if missing.len() > 0 {
        names.lemma_filter_pred(pred, 0);
        assert(missing.contains(missing[0]));
        names.lemma_filter_contains_rev(pred, missing[0]);
        let i = choose|i: int| 0 <= i < names.len() && names[i] == missing[0];
        assert(names[i] == lint.0@[i]@);
    }
}

} // verus!
