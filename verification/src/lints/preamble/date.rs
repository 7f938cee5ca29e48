//! A header's value must be a date written `YYYY-MM-DD`.

use vstd::prelude::*;

use crate::dates::{parse_date, parsed_date};
use crate::lints::{field_snippet1, field_snippet_spec, get_field, lint_message, message_one, no_messages, vec1, Context};
use crate::preamble::find_field;
use crate::snippets::{span, AnnotationView, Message, MessageView};
use crate::text::{blen, byte_len, concat3, split, split_chars, string_of, trim, trim_str};

verus! {

/// The trimmed value of the named header must be a date in the format
/// `YYYY-MM-DD`.
#[derive(Debug, Clone)]
pub struct Date(pub String);

/// The parts of the value between dashes are four, two and two bytes long.
pub open spec fn date_lengths_ok(v: Seq<char>) -> bool {
    let p = split(v, '-');
    p.len() == 3 && blen(p[0]) == 4 && blen(p[1]) == 2 && blen(p[2]) == 2
}

/// What is wrong with a value, if anything: the parser's error, or else a
/// wrong length of its parts.
pub open spec fn date_error(v: Seq<char>) -> Option<Seq<char>> {
    match parsed_date(v, "%Y-%m-%d"@) {
        Err(e) => Some(e),
        Ok(_) => if date_lengths_ok(v) {
            None
        } else {
            Some("invalid length"@)
        },
    }
}

impl Date {
    /// One message when the header is present and its trimmed value is not
    /// such a date, marking the value by its characters.
    pub open spec fn spec_lint(&self, slug: Seq<char>, ctx: &Context) -> Seq<MessageView> {
        let level = ctx.annotation_level;
        match find_field(ctx.preamble@, self.0@) {
            None => seq![],
            Some(f) => match date_error(trim(f.value)) {
                None => seq![],
                Some(e) => seq![
                    lint_message(
                        level,
                        slug,
                        "preamble header `"@ + self.0@ + "` is not a date in the `YYYY-MM-DD` format"@,
                        seq![
                            field_snippet_spec(
                                f,
                                ctx.origin_view(),
                                seq![
                                    AnnotationView {
                                        level,
                                        start: (f.name.len() + 1) as int,
                                        end: (f.value.len() + f.name.len() + 1) as int,
                                        label: Some(e),
                                    },
                                ],
                            ),
                        ],
                        seq![],
                    ),
                ],
            },
        }
    }

    pub fn lint(&self, slug: &str, ctx: &Context) -> (r: Vec<Message>)
        requires
            ctx.wf(),
        ensures
            r@.map_values(|m: Message| m@) == self.spec_lint(slug@, ctx),
    {
        let field = match get_field(ctx, self.0.as_str()) {
            None => return no_messages(),
            Some(f) => f,
        };
        let value = trim_str(field.value());
        proof {
            crate::text::lemma_trim_bound(field@.value);
        }
        let parts = split_chars(value.as_slice(), '-');
        let mut lengths_ok = parts.len() == 3;
        if lengths_ok {
            proof {
                crate::text::lemma_split_offsets(value@, '-');
            }
            lengths_ok = byte_len(parts[0].as_slice()) == 4 && byte_len(parts[1].as_slice()) == 2
                && byte_len(parts[2].as_slice()) == 2;
        }
        assert(lengths_ok == date_lengths_ok(value@));
        let text = string_of(value.as_slice());
        let error = match parse_date(text.as_str(), "%Y-%m-%d") {
            Err(e) => e,
            Ok(_) => {
                if lengths_ok {
                    proof {
                        reveal_strlit("%Y-%m-%d");
                    }
                    assert(date_error(trim(field@.value)) is None);
                    return no_messages();
                }
                String::from_str("invalid length")
            },
        };
        let level = ctx.annotation_level();
        let name = crate::text::chars_of(field.name());
        let full = crate::text::chars_of(field.value());
        proof {
            crate::text::lemma_len_le_blen(field@.name);
            crate::text::lemma_len_le_blen(field@.value);
        }
        let start = name.len() + 1;
        let end = full.len() + name.len() + 1;
        let snip = field_snippet1(field, ctx.origin(), span(level, start, end, Some(error)));
        let title = concat3("preamble header `", self.0.as_str(), "` is not a date in the `YYYY-MM-DD` format");
        let r = vec1(message_one(level, slug, title, snip));
        proof {
            reveal_strlit("%Y-%m-%d");
            reveal_strlit("invalid length");
            reveal_strlit("preamble header `");
            reveal_strlit("` is not a date in the `YYYY-MM-DD` format");
            assert(r@.map_values(|m: Message| m@) =~= self.spec_lint(slug@, ctx));
        }
        r
    }
}

/// A present header draws nothing exactly when its trimmed value parses as a
/// `%Y-%m-%d` date whose parts between dashes are four, two and two bytes
/// long, and otherwise exactly one message saying that it is not such a date;
/// a proposal without the header draws nothing.
pub proof fn law_date_exact(lint: Date, slug: Seq<char>, ctx: &Context)
    ensures
        match find_field(ctx.preamble@, lint.0@) {
            None => lint.spec_lint(slug, ctx).len() == 0,
            Some(f) => {
                let v = trim(f.value);
                let ok = parsed_date(v, "%Y-%m-%d"@) is Ok && date_lengths_ok(v);
                &&& lint.spec_lint(slug, ctx).len() == (if ok { 0int } else { 1int })
                &&& !ok ==> lint.spec_lint(slug, ctx)[0].title == "preamble header `"@ + lint.0@
                    + "` is not a date in the `YYYY-MM-DD` format"@
            },
        },
{
}

} // verus!
