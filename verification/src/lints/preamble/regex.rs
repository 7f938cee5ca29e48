//! A header's value must, or must not, match a pattern.

use vstd::prelude::*;

use crate::lints::{
    field_snippet1, field_snippet_spec, get_field, lint_message, new_message, no_messages,
    result_view, value_span, value_span_spec, vec1, Context, Error,
};
use crate::pattern::{compile, is_match, regex_compiles, regex_error, regex_matches};
use crate::preamble::find_field;
use crate::snippets::{footer, FooterView, Level, Message, MessageView};
use crate::text::{concat3, string_of, trim, trim_str};

verus! {

/// Whether the pattern is required or prohibited.
#[derive(Debug, Clone, Copy, PartialEq, Eq, Structural)]
pub enum Mode {
    Includes,
    Excludes,
}

/// The trimmed value of the named header must match (`Includes`) or must
/// not match (`Excludes`) `pattern`; `message` is the title of the message
/// otherwise.
#[derive(Debug, Clone)]
pub struct PreambleRegex {
    pub name: String,
    pub mode: Mode,
    pub pattern: String,
    pub message: String,
}

impl PreambleRegex {
    /// No message when the header is absent. Otherwise an error when the
    /// pattern does not compile; else, when the trimmed value matches
    /// although prohibited or does not although required, one message
    /// marking the value, with a footer quoting the pattern.
    pub open spec fn spec_lint(&self, slug: Seq<char>, ctx: &Context) -> Result<Seq<MessageView>, Seq<char>> {
        let level = ctx.annotation_level;
        match find_field(ctx.preamble@, self.name@) {
            None => Ok(seq![]),
            Some(f) => if !regex_compiles(self.pattern@) {
                Err(regex_error(self.pattern@))
            } else {
                let matches = regex_matches(self.pattern@, trim(f.value));
                if (self.mode == Mode::Includes) == matches {
                    Ok(seq![])
                } else {
                    let label = if matches {
                        "prohibited pattern was matched"@
                    } else {
                        "required pattern was not matched"@
                    };
                    Ok(seq![
                        lint_message(
                            level,
                            slug,
                            self.message@,
                            seq![field_snippet_spec(f, ctx.origin_view(), seq![value_span_spec(level, f, label)])],
                            seq![FooterView { level: Level::Info, title: "the pattern in question: `"@ + self.pattern@ + "`"@ }],
                        ),
                    ])
                }
            },
        }
    }

    pub fn lint(&self, slug: &str, ctx: &Context) -> (r: Result<Vec<Message>, Error>)
        requires
            ctx.wf(),
        ensures
            result_view(r) == self.spec_lint(slug@, ctx),
    {
        let field = match get_field(ctx, self.name.as_str()) {
            None => return Ok(no_messages()),
            Some(f) => f,
        };
        let value = string_of(trim_str(field.value()).as_slice());
        let re = match compile(self.pattern.as_str()) {
            Ok(re) => re,
            Err(message) => return Err(Error::Custom { message }),
        };
        let matches = is_match(&re, value.as_str());
        let label: &str = match (self.mode, matches) {
            (Mode::Includes, true) => return Ok(no_messages()),
            (Mode::Excludes, false) => return Ok(no_messages()),
            (Mode::Includes, false) => "required pattern was not matched",
            (Mode::Excludes, true) => "prohibited pattern was matched",
        };
        let level = ctx.annotation_level();
        let snip = field_snippet1(field, ctx.origin(), value_span(level, field, label));
        let ghost sv = snip@;
        let foot = footer(Level::Info, concat3("the pattern in question: `", self.pattern.as_str(), "`"));
        let ghost fv = foot@;
        let m = new_message(level, slug, self.message.clone(), vec1(snip), vec1(foot));
        let r = vec1(m);
        proof {
            reveal_strlit("the pattern in question: `");
            reveal_strlit("`");
            reveal_strlit("required pattern was not matched");
            reveal_strlit("prohibited pattern was matched");
            assert(m@.snippets =~= seq![sv]);
            assert(m@.footers =~= seq![fv]);
            assert(r@.map_values(|x: Message| x@) =~= self.spec_lint(slug@, ctx)->Ok_0);
        }
        Ok(r)
    }
}

/// With the header present and the pattern compiling, the lint reports
/// nothing exactly when the trimmed value matches the pattern in the
/// `Includes` mode or does not match it otherwise, and else exactly one
/// message with the configured title, saying which way it failed.
pub proof fn law_preamble_regex_exact(lint: PreambleRegex, slug: Seq<char>, ctx: &Context)
    ensures
        match find_field(ctx.preamble@, lint.name@) {
            None => lint.spec_lint(slug, ctx) == Ok::<Seq<MessageView>, Seq<char>>(seq![]),
            Some(f) => regex_compiles(lint.pattern@) ==> {
                let matches = regex_matches(lint.pattern@, trim(f.value));
                let ok = (lint.mode == Mode::Includes) == matches;
                match lint.spec_lint(slug, ctx) {
                    Ok(r) => {
                        &&& r.len() == (if ok { 0int } else { 1int })
                        &&& !ok ==> r[0].title == lint.message@ && r[0].snippets[0].annotations[0].label == Some(
                            if matches {
                                "prohibited pattern was matched"@
                            } else {
                                "required pattern was not matched"@
                            },
                        )
                    },
                    Err(_) => false,
                }
            },
        },
{
}

} // verus!
