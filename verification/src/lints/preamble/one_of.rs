//! A header's value must be one of a fixed set.

use vstd::prelude::*;

use crate::lints::{
    field_snippet1, field_snippet_spec, get_field, join, join_strings, lint_message, message_one,
    no_messages, strings_view, value_span, value_span_spec, vec1, Context,
};
use crate::preamble::find_field;
use crate::snippets::{Message, MessageView};
use crate::text::{chars_eq, chars_of, concat3, trim, trim_str};

verus! {

/// The trimmed value of the named header must be one of `values`.
#[derive(Debug, Clone)]
pub struct OneOf {
    pub name: String,
    pub values: Vec<String>,
}

/// The label listing the accepted values.
pub open spec fn one_of_label(values: Seq<Seq<char>>) -> Seq<char> {
    "must be one of: `"@ + join(values, "`, `"@) + "`"@
}

impl OneOf {
    /// One message when the header is present and its trimmed value is
    /// none of `values`.
    pub open spec fn spec_lint(&self, slug: Seq<char>, ctx: &Context) -> Seq<MessageView> {
        let level = ctx.annotation_level;
        match find_field(ctx.preamble@, self.name@) {
            None => seq![],
            Some(f) => if strings_view(self.values@).contains(trim(f.value)) {
                seq![]
            } else {
                seq![
                    lint_message(
                        level,
                        slug,
                        "preamble header `"@ + self.name@ + "` has an unrecognized value"@,
                        seq![
                            field_snippet_spec(
                                f,
                                ctx.origin_view(),
                                seq![value_span_spec(level, f, one_of_label(strings_view(self.values@)))],
                            ),
                        ],
                        seq![],
                    ),
                ]
            },
        }
    }

    pub fn lint(&self, slug: &str, ctx: &Context) -> (r: Vec<Message>)
        requires
            ctx.wf(),
        ensures
            r@.map_values(|m: Message| m@) == self.spec_lint(slug@, ctx),
    {
        let field = match get_field(ctx, self.name.as_str()) {
            None => return no_messages(),
            Some(f) => f,
        };
        let value = trim_str(field.value());
        let mut i: usize = 0;
        while i < self.values.len()
            invariant
                i <= self.values@.len(),
                value@ == trim(field@.value),
                find_field(ctx.preamble@, self.name@) == Some(field@),
                forall|j: int| 0 <= j < i ==> self.values@[j]@ != value@,
            decreases self.values@.len() - i,
        {
            let v = chars_of(self.values[i].as_str());
            if chars_eq(v.as_slice(), value.as_slice()) {
                assert(strings_view(self.values@)[i as int] == value@);
                assert(strings_view(self.values@).contains(trim(field@.value)));
                let r = no_messages();
                assert(r@.map_values(|m: Message| m@) =~= self.spec_lint(slug@, ctx));
                return r;
            }
            i += 1;
        }
        assert(!strings_view(self.values@).contains(trim(field@.value)));
        let level = ctx.annotation_level();
        let joined = join_strings(&self.values, "`, `");
        let label = concat3("must be one of: `", joined.as_str(), "`");
        let title = concat3("preamble header `", self.name.as_str(), "` has an unrecognized value");
        let snip = field_snippet1(field, ctx.origin(), value_span(level, field, label.as_str()));
        let r = vec1(message_one(level, slug, title, snip));
        proof {
            reveal_strlit("must be one of: `");
            reveal_strlit("`, `");
            reveal_strlit("`");
            reveal_strlit("preamble header `");
            reveal_strlit("` has an unrecognized value");
            assert(r@.map_values(|m: Message| m@) =~= self.spec_lint(slug@, ctx));
        }
        r
    }
}

/// A header whose trimmed value equals one of the listed values, wherever
/// it stands in the list, draws no message; one whose trimmed value is none
/// of them draws exactly one message, which says that the named header has an
/// unrecognized value and marks the value with the list of accepted values,
/// in their order; a proposal without the header draws none.
pub proof fn law_one_of_accepts_listed(lint: OneOf, slug: Seq<char>, ctx: &Context)
    ensures
        match find_field(ctx.preamble@, lint.name@) {
            None => lint.spec_lint(slug, ctx).len() == 0,
            Some(f) => {
                &&& lint.spec_lint(slug, ctx).len() == 0 <==> exists|j: int|
                    0 <= j < lint.values@.len() && #[trigger] lint.values@[j]@ == trim(f.value)
                &&& lint.spec_lint(slug, ctx).len() != 0 ==> {
                    &&& lint.spec_lint(slug, ctx).len() == 1
                    &&& lint.spec_lint(slug, ctx)[0].title == "preamble header `"@ + lint.name@
                        + "` has an unrecognized value"@
                    &&& lint.spec_lint(slug, ctx)[0].snippets == seq![
                        field_snippet_spec(
                            f,
                            ctx.origin_view(),
                            seq![
                                value_span_spec(
                                    ctx.annotation_level,
                                    f,
                                    "must be one of: `"@ + join(strings_view(lint.values@), "`, `"@) + "`"@,
                                ),
                            ],
                        ),
                    ]
                }
            },
        },
{
    match find_field(ctx.preamble@, lint.name@) {
        None => {},
        Some(f) => {
            if exists|j: int| 0 <= j < lint.values@.len() && #[trigger] lint.values@[j]@ == trim(f.value) {
                let j = choose|j: int| 0 <= j < lint.values@.len() && #[trigger] lint.values@[j]@ == trim(f.value);
                assert(strings_view(lint.values@)[j] == trim(f.value));
            }
            if strings_view(lint.values@).contains(trim(f.value)) {
                let j = choose|j: int|
                    0 <= j < strings_view(lint.values@).len() && strings_view(lint.values@)[j] == trim(f.value);
                assert(lint.values@[j]@ == trim(f.value));
            }
        },
    }
}

} // verus!
