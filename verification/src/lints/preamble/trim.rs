//! Header values must begin with one space and have no other surrounding
//! whitespace.

use vstd::prelude::*;

use crate::lints::{
    field_snippet1, field_snippet_spec, line_span, line_span_spec, lint_message, message_one,
    new_message, value_span, value_span_spec, Context,
};
use crate::preamble::FieldView;
use crate::snippets::{Level, Message, MessageView, Snippet, SnippetView};
use crate::text::{chars_eq, chars_of, concat3, is_trimmed, trim, trim_chars};

verus! {

/// Every header value must begin with a space and carry no other leading or
/// trailing whitespace.
#[derive(Debug, Clone, Copy)]
pub struct Trim;

/// The value without the one space that should begin it.
pub open spec fn after_space(v: Seq<char>) -> Seq<char> {
    if v.len() > 0 && v[0] == ' ' {
        v.drop_first()
    } else {
        v
    }
}

/// A non-empty value that does not begin with a space.
pub open spec fn lacks_space(f: FieldView) -> bool {
    f.value.len() > 0 && f.value[0] != ' '
}

/// A non-empty value with whitespace other than the one leading space.
pub open spec fn has_extra_space(f: FieldView) -> bool {
    f.value.len() > 0 && !is_trimmed(after_space(f.value))
}

/// The messages for the first `k` headers with extra whitespace, in order.
pub open spec fn extra_space_messages(
    level: Level,
    slug: Seq<char>,
    origin: Option<Seq<char>>,
    fields: Seq<FieldView>,
    k: int,
) -> Seq<MessageView>
    decreases k,
{
    if k <= 0 {
        seq![]
    } else {
        let prev = extra_space_messages(level, slug, origin, fields, k - 1);
        let f = fields[k - 1];
        if has_extra_space(f) {
            prev.push(
                lint_message(
                    level,
                    slug,
                    "preamble header `"@ + f.name + "` has extra whitespace"@,
                    seq![
                        field_snippet_spec(
                            f,
                            origin,
                            seq![value_span_spec(level, f, "value has extra whitespace"@)],
                        ),
                    ],
                    seq![],
                ),
            )
        } else {
            prev
        }
    }
}

/// The snippets for the first `k` headers lacking the leading space.
pub open spec fn no_space_snippets(
    level: Level,
    origin: Option<Seq<char>>,
    fields: Seq<FieldView>,
    k: int,
) -> Seq<SnippetView>
    decreases k,
{
    if k <= 0 {
        seq![]
    } else {
        let prev = no_space_snippets(level, origin, fields, k - 1);
        let f = fields[k - 1];
        if lacks_space(f) {
            prev.push(
                field_snippet_spec(
                    f,
                    origin,
                    seq![
                        line_span_spec(
                            level,
                            f,
                            (crate::text::blen(f.name) + 1) as int,
                            1,
                            "space required here"@,
                        ),
                    ],
                ),
            )
        } else {
            prev
        }
    }
}

/// Every one of the first `k` values is empty, or one space followed by
/// text with no whitespace around it.
pub open spec fn well_spaced(fields: Seq<FieldView>, k: int) -> bool {
    forall|i: int| 0 <= i < k ==> !lacks_space(#[trigger] fields[i]) && !has_extra_space(fields[i])
}

proof fn lemma_trim_upto(level: Level, slug: Seq<char>, origin: Option<Seq<char>>, fields: Seq<FieldView>, k: int)
    requires
        0 <= k <= fields.len(),
    ensures
        (extra_space_messages(level, slug, origin, fields, k).len() == 0 && no_space_snippets(level, origin, fields, k).len()
            == 0) <==> well_spaced(fields, k),
    decreases k,
{
    if k > 0 {
        lemma_trim_upto(level, slug, origin, fields, k - 1);
        if !well_spaced(fields, k - 1) {
            let i = choose|i: int| 0 <= i < k - 1 && !(!lacks_space(#[trigger] fields[i]) && !has_extra_space(fields[i]));
            assert(!well_spaced(fields, k));
        }
    }
}

/// The whitespace check raises nothing for a proposal exactly when every
/// header's value is empty, or one space followed by text with no other
/// whitespace around it.
pub proof fn law_trim_clean(t: Trim, slug: Seq<char>, ctx: &Context)
    ensures
        t.spec_lint(slug, ctx).len() == 0 <==> well_spaced(ctx.preamble@, ctx.preamble@.len() as int),
{
    lemma_trim_upto(ctx.annotation_level, slug, ctx.origin_view(), ctx.preamble@, ctx.preamble@.len() as int);
}

impl Trim {
    /// The messages for a proposal: one per header with extra whitespace,
    /// in order; then one marking every header whose value does not begin
    /// with a space, if there is one.
    pub open spec fn spec_lint(&self, slug: Seq<char>, ctx: &Context) -> Seq<MessageView> {
        let level = ctx.annotation_level;
        let fields = ctx.preamble@;
        let snippets = no_space_snippets(level, ctx.origin_view(), fields, fields.len() as int);
        extra_space_messages(level, slug, ctx.origin_view(), fields, fields.len() as int) + if snippets.len() == 0 {
            seq![]
        } else {
            seq![
                lint_message(
                    level,
                    slug,
                    "preamble header values must begin with a space"@,
                    snippets,
                    seq![],
                ),
            ]
        }
    }

    pub fn lint(&self, slug: &str, ctx: &Context) -> (r: Vec<Message>)
        requires
            ctx.wf(),
        ensures
            r@.map_values(|m: Message| m@) == self.spec_lint(slug@, ctx),
    {
        let level = ctx.annotation_level();
        let fields = &ctx.preamble().fields;
        let ghost fv = ctx.preamble@;
        let mut msgs: Vec<Message> = Vec::new();
        let mut snippets: Vec<Snippet> = Vec::new();
        let mut i: usize = 0;
        while i < fields.len()
            invariant
                ctx.wf(),
                fields == &ctx.preamble.fields,
                fv == ctx.preamble@,
                i <= fields@.len(),
                msgs@.map_values(|m: Message| m@) == extra_space_messages(level, slug@, ctx.origin_view(), fv, i as int),
                snippets@.map_values(|s: Snippet| s@) == no_space_snippets(level, ctx.origin_view(), fv, i as int),
            decreases fields@.len() - i,
        {
            let field = &fields[i];
            assert(fv[i as int] == field@);
            assert(ctx.preamble.fields@[i as int]@.wf());
            let value = chars_of(field.value());
            if value.len() == 0 {
                proof {
                    assert(msgs@.map_values(|m: Message| m@) =~= extra_space_messages(level, slug@, ctx.origin_view(), fv, i + 1));
                    assert(snippets@.map_values(|s: Snippet| s@) =~= no_space_snippets(level, ctx.origin_view(), fv, i + 1));
                }
                i += 1;
                continue;
            }
            let starts_with_space = value[0] == ' ';
            if !starts_with_space {
                let n = crate::text::str_byte_len(field.name());
                let ann = line_span(level, field, n + 1, 1, "space required here");
                let s = field_snippet1(field, ctx.origin(), ann);
                snippets.push(s);
                proof {
                    reveal_strlit("space required here");
                }
            }
            let rest = if starts_with_space {
                vstd::slice::slice_subrange(value.as_slice(), 1, value.len())
            } else {
                value.as_slice()
            };
            assert(rest@ == after_space(field@.value)) by {
                if starts_with_space {
                    assert(rest@ =~= field@.value.drop_first());
                }
            }
            let trimmed = trim_chars(rest);
            if !chars_eq(trimmed.as_slice(), rest) {
                let title = concat3("preamble header `", field.name(), "` has extra whitespace");
                let s = field_snippet1(field, ctx.origin(), value_span(level, field, "value has extra whitespace"));
                msgs.push(message_one(level, slug, title, s));
                proof {
                    reveal_strlit("preamble header `");
                    reveal_strlit("` has extra whitespace");
                    reveal_strlit("value has extra whitespace");
                }
            }
            proof {
                assert(msgs@.map_values(|m: Message| m@) =~= extra_space_messages(level, slug@, ctx.origin_view(), fv, i + 1));
                assert(snippets@.map_values(|s: Snippet| s@) =~= no_space_snippets(level, ctx.origin_view(), fv, i + 1));
            }
            i += 1;
        }
        assert(fv.len() == fields@.len());
        let ghost before = msgs@.map_values(|m: Message| m@);
        let ghost snips = no_space_snippets(level, ctx.origin_view(), fv, fv.len() as int);
        assert(snippets@.map_values(|s: Snippet| s@).len() == snippets@.len());
        if snippets.len() > 0 {
            let title = String::from_str("preamble header values must begin with a space");
            let m = new_message(level, slug, title, snippets, Vec::new());
            proof {
                reveal_strlit("preamble header values must begin with a space");
                assert(m@.footers =~= seq![]);
            }
            msgs.push(m);
            assert(msgs@.map_values(|m: Message| m@) =~= before.push(m@));
        } else {
            assert(snips =~= seq![]);
        }
        proof {
            assert(msgs@.map_values(|m: Message| m@) =~= self.spec_lint(slug@, ctx));
        }
        msgs
    }
}

} // verus!
