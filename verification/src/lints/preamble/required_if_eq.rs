//! A header that is required exactly when another has a given value.

use vstd::prelude::*;

use crate::lints::{field_snippet1, field_snippet_spec, get_field, lint_message, new_message, no_messages, vec1, Context};
use crate::lints::preamble::no_duplicates::whole_line;
use crate::preamble::{find_field, Field, FieldView};
use crate::snippets::{span, Level, Message, MessageView, SnippetView};
use crate::text::{chars_eq, chars_of, concat, concat7, str_byte_len, trim, trim_str};

verus! {

/// Header `then_name` must be present when header `when` has the value
/// `equals`, and only in that case.
#[derive(Debug, Clone)]
pub struct RequiredIfEq {
    pub when: String,
    pub equals: String,
    pub then_name: String,
}

/// A header line annotated as a whole.
pub open spec fn whole_snippet(origin: Option<Seq<char>>, f: FieldView, level: Level, label: Seq<char>) -> SnippetView {
    field_snippet_spec(f, origin, seq![whole_line(level, f, label)])
}

impl RequiredIfEq {
    pub open spec fn only_allowed_title(&self) -> Seq<char> {
        "preamble header `"@ + self.then_name@ + "` is only allowed when `"@ + self.when@ + "` is `"@ + self.equals@ + "`"@
    }

    /// With both headers present and `when` not equal to `equals`: a
    /// snippet of each, the earlier line first (`when` first on a tie).
    pub open spec fn both_snippets(&self, origin: Option<Seq<char>>, level: Level, w: FieldView, t: FieldView) -> Seq<SnippetView> {
        let sw = whole_snippet(origin, w, Level::Info, "unless equal to `"@ + self.equals@ + "`"@);
        let st = whole_snippet(origin, t, level, "remove this"@);
        if t.line_start < w.line_start {
            seq![st, sw]
        } else {
            seq![sw, st]
        }
    }

    /// No message when neither header is present, or when `then_name` is present
    /// exactly when the trimmed value of `when` is `equals`. Otherwise one
    /// message: that `then_name` is required, marking `when`; or that `then_name` is
    /// only allowed when `when` is `equals`, marking both headers (or only
    /// `then_name` when `when` is absent).
    pub open spec fn spec_lint(&self, slug: Seq<char>, ctx: &Context) -> Seq<MessageView> {
        let level = ctx.annotation_level;
        let origin = ctx.origin_view();
        let fields = ctx.preamble@;
        match (find_field(fields, self.when@), find_field(fields, self.then_name@)) {
            (None, None) => seq![],
            (Some(w), Some(t)) => if trim(w.value) == self.equals@ {
                seq![]
            } else {
                seq![lint_message(level, slug, self.only_allowed_title(), self.both_snippets(origin, level, w, t), seq![])]
            },
            (Some(w), None) => if trim(w.value) != self.equals@ {
                seq![]
            } else {
                seq![
                    lint_message(
                        level,
                        slug,
                        "preamble header `"@ + self.then_name@ + "` is required when `"@ + self.when@ + "` is `"@
                            + self.equals@ + "`"@,
                        seq![whole_snippet(origin, w, Level::Info, "defined here"@)],
                        seq![],
                    ),
                ]
            },
            (None, Some(t)) => seq![
                lint_message(
                    level,
                    slug,
                    self.only_allowed_title(),
                    seq![whole_snippet(origin, t, level, "defined here"@)],
                    seq![],
                ),
            ],
        }
    }

    pub fn lint(&self, slug: &str, ctx: &Context) -> (r: Vec<Message>)
        requires
            ctx.wf(),
        ensures
            r@.map_values(|m: Message| m@) == self.spec_lint(slug@, ctx),
    {
        let level = ctx.annotation_level();
        let present_opt = get_field(ctx, self.then_name.as_str());
        let when_opt = get_field(ctx, self.when.as_str());
        let equals = chars_of(self.equals.as_str());
        let r = match (when_opt, present_opt) {
            (None, None) => no_messages(),
            (Some(when), _) => {
                let v = trim_str(when.value());
                let same = chars_eq(v.as_slice(), equals.as_slice());
                match present_opt {
                    Some(present) => {
                        if same {
                            no_messages()
                        } else {
                            let title = concat7("preamble header `", self.then_name.as_str(), "` is only allowed when `", self.when.as_str(), "` is `", self.equals.as_str(), "`");
                            let info = concat("unless equal to `", self.equals.as_str());
                            let info = concat(info.as_str(), "`");
                            let sw = field_snippet1(when, ctx.origin(), span(Level::Info, 0, str_byte_len(when.source()), Some(info)));
                            let st = field_snippet1(present, ctx.origin(), span(level, 0, str_byte_len(present.source()), Some(String::from_str("remove this"))));
                            let ghost vw = sw@;
                            let ghost vt = st@;
                            let mut snippets = Vec::new();
                            if present.line_start() < when.line_start() {
                                snippets.push(st);
                                snippets.push(sw);
                                assert(snippets@.map_values(|s: crate::snippets::Snippet| s@) =~= seq![vt, vw]);
                            } else {
                                snippets.push(sw);
                                snippets.push(st);
                                assert(snippets@.map_values(|s: crate::snippets::Snippet| s@) =~= seq![vw, vt]);
                            }
                            proof {
                                reveal_strlit("unless equal to `");
                                reveal_strlit("`");
                                reveal_strlit("remove this");
                            }
                            let m = new_message(level, slug, title, snippets, Vec::new());
                            assert(m@.footers =~= seq![]);
                            vec1(m)
                        }
                    },
                    None => {
                        if !same {
                            no_messages()
                        } else {
                            let title = concat7("preamble header `", self.then_name.as_str(), "` is required when `", self.when.as_str(), "` is `", self.equals.as_str(), "`");
                            let s = field_snippet1(when, ctx.origin(), span(Level::Info, 0, str_byte_len(when.source()), Some(String::from_str("defined here"))));
                            let ghost vs = s@;
                            let m = new_message(level, slug, title, vec1(s), Vec::new());
                            assert(m@.snippets =~= seq![vs]);
                            assert(m@.footers =~= seq![]);
                            vec1(m)
                        }
                    },
                }
            },
            (None, Some(present)) => {
                let title = concat7("preamble header `", self.then_name.as_str(), "` is only allowed when `", self.when.as_str(), "` is `", self.equals.as_str(), "`");
                let s = field_snippet1(present, ctx.origin(), span(level, 0, str_byte_len(present.source()), Some(String::from_str("defined here"))));
                let ghost vs = s@;
                let m = new_message(level, slug, title, vec1(s), Vec::new());
                assert(m@.snippets =~= seq![vs]);
                assert(m@.footers =~= seq![]);
                vec1(m)
            },
        };
        proof {
            reveal_strlit("preamble header `");
            reveal_strlit("` is only allowed when `");
            reveal_strlit("` is required when `");
            reveal_strlit("` is `");
            reveal_strlit("`");
            reveal_strlit("defined here");
            assert(r@.map_values(|m: Message| m@) =~= self.spec_lint(slug@, ctx));
        }
        r
    }
}

/// The header `then_name` must be present exactly when `when` is present
/// with the trimmed value `equals`: the lint reports nothing when that holds,
/// and otherwise exactly one message, saying that `then_name` is required or
/// that it is only allowed in that case.
pub proof fn law_required_if_eq_exact(lint: RequiredIfEq, slug: Seq<char>, ctx: &Context)
    ensures
        ({
            let fields = ctx.preamble@;
            let r = lint.spec_lint(slug, ctx);
            let required = find_field(fields, lint.when@) matches Some(w) && trim(w.value) == lint.equals@;
            let present = find_field(fields, lint.then_name@) is Some;
            &&& r.len() == (if present == required { 0int } else { 1int })
            &&& present && !required ==> r[0].title == lint.only_allowed_title()
            &&& !present && required ==> r[0].title == "preamble header `"@ + lint.then_name@ + "` is required when `"@
                + lint.when@ + "` is `"@ + lint.equals@ + "`"@
        }),
{
}

} // verus!
