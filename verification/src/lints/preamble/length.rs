//! Bounds on the length of a header's value.

use vstd::prelude::*;

use crate::lints::{
    field_snippet1, field_snippet_spec, get_field, lint_message, message_one, no_messages,
    value_span, value_span_spec, Context,
};
use crate::preamble::find_field;
use crate::snippets::{Message, MessageView};
use crate::text::{blen, byte_len, concat5, decimal, trim, trim_str, u64_to_string};

verus! {

/// The trimmed value of the named header must be at least `min` and at most
/// `max` bytes long.
#[derive(Debug, Clone)]
pub struct Length {
    pub name: String,
    pub min: Option<usize>,
    pub max: Option<usize>,
}

impl Length {
    /// The messages for a proposal: when the header is present, one if its
    /// trimmed value is longer than `max`, then one if it is shorter than
    /// `min`.
    pub open spec fn spec_lint(&self, slug: Seq<char>, ctx: &Context) -> Seq<MessageView> {
        let level = ctx.annotation_level;
        match find_field(ctx.preamble@, self.name@) {
            None => seq![],
            Some(f) => {
                let len = blen(trim(f.value));
                let long = if self.max is Some && len > self.max->0 {
                    seq![
                        lint_message(
                            level,
                            slug,
                            "preamble header `"@ + self.name@ + "` value is too long (max "@
                                + decimal(self.max->0 as nat) + ")"@,
                            seq![
                                field_snippet_spec(
                                    f,
                                    ctx.origin_view(),
                                    seq![value_span_spec(level, f, "too long"@)],
                                ),
                            ],
                            seq![],
                        ),
                    ]
                } else {
                    seq![]
                };
                let short = if self.min is Some && len < self.min->0 {
                    seq![
                        lint_message(
                            level,
                            slug,
                            "preamble header `"@ + self.name@ + "` value is too short (min "@
                                + decimal(self.min->0 as nat) + ")"@,
                            seq![
                                field_snippet_spec(
                                    f,
                                    ctx.origin_view(),
                                    seq![value_span_spec(level, f, "too short"@)],
                                ),
                            ],
                            seq![],
                        ),
                    ]
                } else {
                    seq![]
                };
                long + short
            },
        }
    }

    pub fn lint(&self, slug: &str, ctx: &Context) -> (r: Vec<Message>)
        requires
            ctx.wf(),
        ensures
            r@.map_values(|m: Message| m@) == self.spec_lint(slug@, ctx),
    {
        let field = match get_field(ctx, self.name.as_str()) {
            None => return no_messages(),
            Some(f) => f,
        };
        let level = ctx.annotation_level();
        let trimmed = trim_str(field.value());
        proof {
            crate::text::lemma_trim_bound(field@.value);
        }
        let len = byte_len(trimmed.as_slice());
        let mut r: Vec<Message> = Vec::new();
        if let Some(max) = self.max {
            if len > max {
                let n = u64_to_string(max as u64);
                let title = concat5("preamble header `", self.name.as_str(), "` value is too long (max ", n.as_str(), ")");
                let snip = field_snippet1(field, ctx.origin(), value_span(level, field, "too long"));
                r.push(message_one(level, slug, title, snip));
            }
        }
        let ghost after_long = r@;
        if let Some(min) = self.min {
            if len < min {
                let n = u64_to_string(min as u64);
                let title = concat5("preamble header `", self.name.as_str(), "` value is too short (min ", n.as_str(), ")");
                let snip = field_snippet1(field, ctx.origin(), value_span(level, field, "too short"));
                r.push(message_one(level, slug, title, snip));
            }
        }
        proof {
            reveal_strlit("preamble header `");
            reveal_strlit("` value is too long (max ");
            reveal_strlit("` value is too short (min ");
            reveal_strlit(")");
            reveal_strlit("too long");
            reveal_strlit("too short");
            assert(r@.map_values(|m: Message| m@) =~= self.spec_lint(slug@, ctx));
        }
        r
    }
}

/// Each bound is checked on its own: when the header is present, a trimmed
/// value longer than a configured `max` draws a "too long" message whether or
/// not a `min` is configured, one shorter than a configured `min` draws a "too
/// short" message whether or not a `max` is configured, and nothing else is
/// reported; a proposal without the header draws nothing.
pub proof fn law_length_bounds_independent(lint: Length, slug: Seq<char>, ctx: &Context)
    ensures
        match find_field(ctx.preamble@, lint.name@) {
            None => lint.spec_lint(slug, ctx).len() == 0,
            Some(f) => {
                let len = blen(trim(f.value));
                let long = lint.max is Some && len > lint.max->0;
                let short = lint.min is Some && len < lint.min->0;
                let r = lint.spec_lint(slug, ctx);
                &&& r.len() == (if long { 1int } else { 0int }) + (if short { 1int } else { 0int })
                &&& long ==> r[0].title == "preamble header `"@ + lint.name@ + "` value is too long (max "@
                    + decimal(lint.max->0 as nat) + ")"@
                &&& long ==> r[0].snippets == seq![
                    field_snippet_spec(f, ctx.origin_view(), seq![value_span_spec(ctx.annotation_level, f, "too long"@)]),
                ]
                &&& short ==> r[r.len() - 1].title == "preamble header `"@ + lint.name@
                    + "` value is too short (min "@ + decimal(lint.min->0 as nat) + ")"@
                &&& short ==> r[r.len() - 1].snippets == seq![
                    field_snippet_spec(f, ctx.origin_view(), seq![value_span_spec(ctx.annotation_level, f, "too short"@)]),
                ]
            },
        },
{
}

} // verus!
