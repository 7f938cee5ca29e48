//! The body must begin with a heading.

use vstd::prelude::*;

use crate::lints::markdown::{line_spec, node_in_source};
use crate::lints::{lint_message, message_one, no_messages, vec1, Context};
use crate::snippets::{Message, MessageView, SnippetView};
use crate::tree::NodeKind;

verus! {

/// Nothing may come between the preamble and the first heading.
#[derive(Debug, Clone, Copy)]
pub struct HeadingFirst;

impl HeadingFirst {
    /// One message when the first node under the document is not a
    /// heading, showing its first line.
    pub open spec fn spec_lint(&self, slug: Seq<char>, ctx: &Context) -> Seq<MessageView> {
        if ctx.body@.len() < 2 {
            seq![]
        } else {
            let n = ctx.body@[1];
            if n.value is Heading {
                seq![]
            } else {
                seq![
                    lint_message(
                        ctx.annotation_level,
                        slug,
                        "Nothing is permitted between the preamble and the first heading"@,
                        seq![
                            SnippetView {
                                source: line_spec(ctx, n.start_line as int),
                                line_start: n.start_line as int,
                                origin: ctx.origin_view(),
                                fold: false,
                                annotations: seq![],
                            },
                        ],
                        seq![],
                    ),
                ]
            }
        }
    }

    pub fn lint(&self, slug: &str, ctx: &Context) -> (r: Vec<Message>)
        requires
            ctx.body_wf(),
        ensures
            r@.map_values(|m: Message| m@) == self.spec_lint(slug@, ctx),
    {
        if ctx.body.len() < 2 {
            return no_messages();
        }
        let n = &ctx.body[1];
        if let NodeKind::Heading(_) = n.value {
            return no_messages();
        }
        assert(node_in_source(ctx, ctx.body@[1]));
        let source = ctx.line(n.start_line);
        let snip = crate::snippets::snippet(source.as_str(), n.start_line, ctx.origin(), false, Vec::new());
        assert(snip@.annotations =~= seq![]);
        let title = String::from_str("Nothing is permitted between the preamble and the first heading");
        let r = vec1(message_one(ctx.annotation_level(), slug, title, snip));
        proof {
            reveal_strlit("Nothing is permitted between the preamble and the first heading");
            assert(r@.map_values(|m: Message| m@) =~= self.spec_lint(slug@, ctx));
        }
        r
    }
}

} // verus!
