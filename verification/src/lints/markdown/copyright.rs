//! The copyright waiver must end the proposal.

use vstd::prelude::*;

use crate::lints::markdown::{
    ast_snippet_spec, ends_with_two, ends_with_two_exec, find_heading, first_heading, node_in_source,
    nonblank_lines, nonblank_lines_of,
};
use crate::lints::{lint_message, new_message, no_messages, strings_view, vec1, Context};
use crate::snippets::{footer, FooterView, Level, Message, MessageView};

verus! {

/// When the proposal has a `## Copyright` section and the copyright
/// waiver, the two must be its last non-blank lines.
#[derive(Debug, Clone, Copy)]
pub struct Copyright;

pub open spec fn copyright_heading() -> Seq<char> {
    "## Copyright"@
}

pub open spec fn copyright_waiver() -> Seq<char> {
    "Copyright and related rights waived via [CC0](../LICENSE.md)."@
}

impl Copyright {
    /// When a level-2 heading `Copyright` is present and a non-blank line
    /// is the waiver, but the non-blank lines do not end with the heading
    /// line then the waiver: one message marking the heading.
    pub open spec fn spec_lint(&self, slug: Seq<char>, ctx: &Context) -> Seq<MessageView> {
        let b = ctx.body@;
        let lines = nonblank_lines(ctx.body_source@);
        match first_heading(b, 2, "Copyright"@, b.len() as int) {
            None => seq![],
            Some(h) => if !lines.contains(copyright_waiver()) || ends_with_two(lines, copyright_heading(), copyright_waiver()) {
                seq![]
            } else {
                seq![
                    lint_message(
                        ctx.annotation_level,
                        slug,
                        "copyright waiver must appear at the end of the file"@,
                        seq![ast_snippet_spec(ctx, b[h], ctx.annotation_level, Some("move this waiver to the end"@))],
                        seq![
                            FooterView {
                                level: Level::Help,
                                title: "end the file with `## Copyright` followed by `Copyright and related rights waived via [CC0](../LICENSE.md).`"@,
                            },
                        ],
                    ),
                ]
            },
        }
    }

    pub fn lint(&self, slug: &str, ctx: &Context) -> (r: Vec<Message>)
        requires
            ctx.body_wf(),
        ensures
            r@.map_values(|m: Message| m@) == self.spec_lint(slug@, ctx),
    {
        proof {
            reveal_strlit("Copyright");
            reveal_strlit("## Copyright");
            reveal_strlit("Copyright and related rights waived via [CC0](../LICENSE.md).");
        }
        let h = match find_heading(&ctx.body, 2, "Copyright") {
            None => return no_messages(),
            Some(h) => h,
        };
        let lines = nonblank_lines_of(ctx.body_source());
        let waiver = "Copyright and related rights waived via [CC0](../LICENSE.md).";
        let mut found = false;
        let mut i: usize = 0;
        while i < lines.len()
            invariant
                i <= lines@.len(),
                waiver@ == copyright_waiver(),
                found <==> exists|k: int| 0 <= k < i && lines@[k]@ == waiver@,
            decreases lines@.len() - i,
        {
            if crate::text::str_eq(lines[i].as_str(), waiver) {
                found = true;
            }
            i += 1;
        }
        proof {
            let sv = strings_view(lines@);
            if found {
                let k = choose|k: int| 0 <= k < lines@.len() && lines@[k]@ == waiver@;
                assert(sv[k] == waiver@);
            } else {
                assert forall|k: int| 0 <= k < sv.len() implies sv[k] != waiver@ by {
                    assert(sv[k] == lines@[k]@);
                }
            }
        }
        if !found || ends_with_two_exec(&lines, "## Copyright", waiver) {
            return no_messages();
        }
        assert(node_in_source(ctx, ctx.body@[h as int]));
        let snip = ctx.ast_snippet(&ctx.body[h], None, Some(String::from_str("move this waiver to the end")));
        let ghost sv = snip@;
        let foot = footer(
            Level::Help,
            String::from_str("end the file with `## Copyright` followed by `Copyright and related rights waived via [CC0](../LICENSE.md).`"),
        );
        let ghost fv = foot@;
        let m = new_message(ctx.annotation_level(), slug, String::from_str("copyright waiver must appear at the end of the file"), vec1(snip), vec1(foot));
        let r = vec1(m);
        proof {
            reveal_strlit("move this waiver to the end");
            reveal_strlit("copyright waiver must appear at the end of the file");
            reveal_strlit("end the file with `## Copyright` followed by `Copyright and related rights waived via [CC0](../LICENSE.md).`");
            assert(m@.snippets =~= seq![sv]);
            assert(m@.footers =~= seq![fv]);
            assert(r@.map_values(|m: Message| m@) =~= self.spec_lint(slug@, ctx));
        }
        r
    }
}

} // verus!
