//! While a proposal is in last call, its deadline must not have passed.

use vstd::prelude::*;

use crate::dates::{date_before, date_text, parse_date, parsed_date, print_date, today, valid_ymd};
use crate::lints::{
    field_snippet1, field_snippet_spec, get_field, line_span, line_span_spec, lint_message,
    message_one, no_messages, vec1, Context,
};
use crate::preamble::find_field;
use crate::snippets::{Message, MessageView};
use crate::text::{blen, chars_eq, chars_of, concat5, string_of, str_byte_len, trim, trim_str};

verus! {

/// When the `status` header is `Last Call`, the date in the named header
/// must be today or later.
#[derive(Debug, Clone)]
pub struct FutureDate(pub String);

impl FutureDate {
    /// Given today's date: when the trimmed `status` is `Last Call` and the
    /// named header is there, one message when its trimmed value is not a
    /// `YYYY-MM-DD` date, or is a date before today; none otherwise.
    pub open spec fn spec_lint(&self, slug: Seq<char>, ctx: &Context, today: (int, int, int)) -> Seq<MessageView> {
        let level = ctx.annotation_level;
        match find_field(ctx.preamble@, "status"@) {
            None => seq![],
            Some(status) => if trim(status.value) != "Last Call"@ {
                seq![]
            } else {
                match find_field(ctx.preamble@, self.0@) {
                    None => seq![],
                    Some(f) => match parsed_date(trim(f.value), "%Y-%m-%d"@) {
                        Err(_) => seq![
                            lint_message(
                                level,
                                slug,
                                "preamble header `"@ + self.0@ + "` is not a date in the `YYYY-MM-DD` format"@,
                                seq![
                                    field_snippet_spec(
                                        f,
                                        ctx.origin_view(),
                                        seq![
                                            line_span_spec(
                                                level,
                                                f,
                                                (blen(f.name) + 2) as int,
                                                blen(f.value) as int,
                                                "must be a date in the `YYYY-MM-DD` format"@,
                                            ),
                                        ],
                                    ),
                                ],
                                seq![],
                            ),
                        ],
                        Ok(d) => if !date_before(d, today) {
                            seq![]
                        } else {
                            seq![
                                lint_message(
                                    level,
                                    slug,
                                    "preamble header `"@ + self.0@ + "` must be today or a future date (today is "@
                                        + date_text(today.0, today.1, today.2) + ")"@,
                                    seq![
                                        field_snippet_spec(
                                            f,
                                            ctx.origin_view(),
                                            seq![
                                                line_span_spec(
                                                    level,
                                                    f,
                                                    (blen(f.name) + 2) as int,
                                                    blen(f.value) as int,
                                                    "must be today or a future date"@,
                                                ),
                                            ],
                                        ),
                                    ],
                                    seq![],
                                ),
                            ]
                        },
                    },
                }
            },
        }
    }

    /// Checks the proposal against today's date, read from the clock; when
    /// the clock gives no date (it is set before 1970), there is nothing to
    /// check against and no message.
    pub fn lint(&self, slug: &str, ctx: &Context) -> (r: Vec<Message>)
        requires
            ctx.wf(),
        ensures
            r@.len() == 0 || exists|t: (int, int, int)|
                valid_ymd(t.0, t.1, t.2) && r@.map_values(|m: Message| m@) == #[trigger] self.spec_lint(slug@, ctx, t),
    {
        let (y, m, d) = match today() {
            Some(t) => t,
            None => return Vec::new(),
        };
        let r = self.lint_on(slug, ctx, y, m, d);
        assert(r@.map_values(|m: Message| m@) == self.spec_lint(slug@, ctx, (y as int, m as int, d as int)));
        r
    }

    /// Checks the proposal against the given date.
    pub fn lint_on(&self, slug: &str, ctx: &Context, year: i32, month: u32, day: u32) -> (r: Vec<Message>)
        requires
            ctx.wf(),
            valid_ymd(year as int, month as int, day as int),
        ensures
            r@.map_values(|m: Message| m@) == self.spec_lint(slug@, ctx, (year as int, month as int, day as int)),
    {
        let status = match get_field(ctx, "status") {
            None => return no_messages(),
            Some(s) => trim_str(s.value()),
        };
        let last_call = chars_of("Last Call");
        if !chars_eq(status.as_slice(), last_call.as_slice()) {
            return no_messages();
        }
        let field = match get_field(ctx, self.0.as_str()) {
            None => return no_messages(),
            Some(f) => f,
        };
        let value = string_of(trim_str(field.value()).as_slice());
        let date = match parse_date(value.as_str(), "%Y-%m-%d") {
            Err(_) => {
                let level = ctx.annotation_level();
                let title = concat5("preamble header `", self.0.as_str(), "` is not a date in the `YYYY-MM-DD` format", "", "");
                let ann = line_span(level, field, str_byte_len(field.name()) + 2, str_byte_len(field.value()), "must be a date in the `YYYY-MM-DD` format");
                let snip = field_snippet1(field, ctx.origin(), ann);
                let r = vec1(message_one(level, slug, title, snip));
                proof {
                    reveal_strlit("preamble header `");
                    reveal_strlit("` is not a date in the `YYYY-MM-DD` format");
                    reveal_strlit("");
                    reveal_strlit("must be a date in the `YYYY-MM-DD` format");
                    assert(r@.map_values(|m: Message| m@) =~= self.spec_lint(slug@, ctx, (year as int, month as int, day as int)));
                }
                return r;
            },
            Ok(date) => date,
        };
        let before = date.0 < year || (date.0 == year && (date.1 < month || (date.1 == month && date.2 < day)));
        if !before {
            return no_messages();
        }
        let level = ctx.annotation_level();
        let shown = print_date(year, month, day);
        let title = concat5("preamble header `", self.0.as_str(), "` must be today or a future date (today is ", shown.as_str(), ")");
        let ann = line_span(level, field, str_byte_len(field.name()) + 2, str_byte_len(field.value()), "must be today or a future date");
        let snip = field_snippet1(field, ctx.origin(), ann);
        let r = vec1(message_one(level, slug, title, snip));
        proof {
            reveal_strlit("preamble header `");
            reveal_strlit("` must be today or a future date (today is ");
            reveal_strlit(")");
            reveal_strlit("must be today or a future date");
            assert(r@.map_values(|m: Message| m@) =~= self.spec_lint(slug@, ctx, (year as int, month as int, day as int)));
        }
        r
    }
}

} // verus!
