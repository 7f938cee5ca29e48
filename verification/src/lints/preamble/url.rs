//! A header's value must be a URL.

use vstd::prelude::*;

use crate::lints::{
    field_snippet1, field_snippet_spec, get_field, lint_message, message_one, no_messages,
    value_span, value_span_spec, vec1, Context,
};
use crate::preamble::find_field;
use crate::snippets::{opt_view, Message, MessageView};
use crate::text::{concat3, string_of, trim, trim_str};

verus! {

/// The text of the error `url::Url::parse` gives for a text, or none when
/// it parses the text.
pub uninterp spec fn url_parse_error(text: Seq<char>) -> Option<Seq<char>>;

/// Calls `url::Url::parse`, giving the text of its error, if any.
#[verifier::external_body]
fn parse_url(text: &str) -> (r: Option<String>)
    ensures
        opt_view(r) == url_parse_error(text@),
{
    url::Url::parse(text).err().map(|e| e.to_string())
}

/// The trimmed value of the named header must parse as a URL.
#[derive(Debug, Clone)]
pub struct Url(pub String);

impl Url {
    /// One message when the header is present and its trimmed value does
    /// not parse, labelled with the parser's error.
    pub open spec fn spec_lint(&self, slug: Seq<char>, ctx: &Context) -> Seq<MessageView> {
        let level = ctx.annotation_level;
        match find_field(ctx.preamble@, self.0@) {
            None => seq![],
            Some(f) => match url_parse_error(trim(f.value)) {
                None => seq![],
                Some(e) => seq![
                    lint_message(
                        level,
                        slug,
                        "preamble header `"@ + self.0@ + "` is not a valid URL"@,
                        seq![field_snippet_spec(f, ctx.origin_view(), seq![value_span_spec(level, f, e)])],
                        seq![],
                    ),
                ],
            },
        }
    }

    pub fn lint(&self, slug: &str, ctx: &Context) -> (r: Vec<Message>)
        requires
            ctx.wf(),
        ensures
            r@.map_values(|m: Message| m@) == self.spec_lint(slug@, ctx),
    {
        let field = match get_field(ctx, self.0.as_str()) {
            None => return no_messages(),
            Some(f) => f,
        };
        let value = string_of(trim_str(field.value()).as_slice());
        let e = match parse_url(value.as_str()) {
            None => return no_messages(),
            Some(e) => e,
        };
        let level = ctx.annotation_level();
        let title = concat3("preamble header `", self.0.as_str(), "` is not a valid URL");
        let snip = field_snippet1(field, ctx.origin(), value_span(level, field, e.as_str()));
        let r = vec1(message_one(level, slug, title, snip));
        proof {
            reveal_strlit("preamble header `");
            reveal_strlit("` is not a valid URL");
            assert(r@.map_values(|m: Message| m@) =~= self.spec_lint(slug@, ctx));
        }
        r
    }
}

} // verus!
