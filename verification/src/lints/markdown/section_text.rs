//! A section that must end the proposal with a fixed text.

use vstd::prelude::*;

use crate::lints::markdown::{
    ast_snippet_spec, ends_with_two, ends_with_two_exec, find_heading, first_heading, node_in_source,
    nonblank_lines, nonblank_lines_of,
};
use crate::lints::{lint_message, new_message, no_messages, vec1, Context};
use crate::snippets::{footer, FooterView, Level, Message, MessageView};
use crate::text::{concat3, concat5};

verus! {

/// The section introduced by a heading of level `level` with text
/// `section` must be the last content of the proposal, and its body must be
/// exactly `exactly` (ignoring surrounding whitespace).
#[derive(Debug, Clone)]
pub struct SectionText {
    pub section: String,
    pub level: u8,
    pub exactly: String,
}

/// `n` copies of `c`.
pub open spec fn repeat_char(c: char, n: nat) -> Seq<char> {
    Seq::new(n, |i: int| c)
}

impl SectionText {
    /// The line the heading is written as, such as `## Copyright`.
    pub open spec fn heading_line_spec(&self) -> Seq<char> {
        repeat_char('#', self.level as nat) + " "@ + self.section@
    }

    /// The line the heading is written as, such as `## Copyright`.
    pub fn heading_line(&self) -> (r: String)
        ensures
            r@ == self.heading_line_spec(),
    {
        let mut r = String::new();
        let mut i: u8 = 0;
        while i < self.level
            invariant
                i <= self.level,
                r@ == repeat_char('#', i as nat),
            decreases self.level - i,
        {
            r.append("#");
            proof {
                reveal_strlit("#");
                assert(r@ =~= repeat_char('#', (i + 1) as nat));
            }
            i += 1;
        }
        r.append(" ");
        r.append(self.section.as_str());
        proof {
            reveal_strlit(" ");
        }
        r
    }

    /// When the heading is present and the proposal's non-blank lines do
    /// not end with the heading line then the text: one message marking
    /// the heading, with a footer giving the expected ending.
    pub open spec fn spec_lint(&self, slug: Seq<char>, ctx: &Context) -> Seq<MessageView> {
        let b = ctx.body@;
        match first_heading(b, self.level, self.section@, b.len() as int) {
            None => seq![],
            Some(h) => if ends_with_two(nonblank_lines(ctx.body_source@), self.heading_line_spec(), self.exactly@) {
                seq![]
            } else {
                seq![
                    lint_message(
                        ctx.annotation_level,
                        slug,
                        "the `"@ + self.section@ + "` section must be the last content in the file"@,
                        seq![ast_snippet_spec(ctx, b[h], ctx.annotation_level, Some("nothing may follow this section"@))],
                        seq![
                            FooterView {
                                level: Level::Help,
                                title: "end the file with `"@ + self.heading_line_spec() + "` followed immediately by `"@
                                    + self.exactly@ + "`, with no other content after it"@,
                            },
                        ],
                    ),
                ]
            },
        }
    }

    pub fn lint(&self, slug: &str, ctx: &Context) -> (r: Vec<Message>)
        requires
            ctx.body_wf(),
        ensures
            r@.map_values(|m: Message| m@) == self.spec_lint(slug@, ctx),
    {
        let h = match find_heading(&ctx.body, self.level, self.section.as_str()) {
            None => return no_messages(),
            Some(h) => h,
        };
        let lines = nonblank_lines_of(ctx.body_source());
        let heading = self.heading_line();
        if ends_with_two_exec(&lines, heading.as_str(), self.exactly.as_str()) {
            return no_messages();
        }
        assert(node_in_source(ctx, ctx.body@[h as int]));
        let snip = ctx.ast_snippet(&ctx.body[h], None, Some(String::from_str("nothing may follow this section")));
        let ghost sv = snip@;
        let title = concat3("the `", self.section.as_str(), "` section must be the last content in the file");
        let foot = footer(
            Level::Help,
            concat5("end the file with `", heading.as_str(), "` followed immediately by `", self.exactly.as_str(), "`, with no other content after it"),
        );
        let ghost fv = foot@;
        let m = new_message(ctx.annotation_level(), slug, title, vec1(snip), vec1(foot));
        let r = vec1(m);
        proof {
            reveal_strlit("nothing may follow this section");
            reveal_strlit("the `");
            reveal_strlit("` section must be the last content in the file");
            reveal_strlit("end the file with `");
            reveal_strlit("` followed immediately by `");
            reveal_strlit("`, with no other content after it");
            assert(m@.snippets =~= seq![sv]);
            assert(m@.footers =~= seq![fv]);
            assert(r@.map_values(|m: Message| m@) =~= self.spec_lint(slug@, ctx));
        }
        r
    }
}

} // verus!
