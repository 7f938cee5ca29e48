//! Code blocks of a language must carry a given SPDX license.

use vstd::prelude::*;

use crate::lints::markdown::{ast_lines_spec, node_in_source};
use crate::lints::{lint_message, message_one, result_view, Context, Error};
use crate::pattern::{captures, compile, groups_view, regex_captures, regex_compiles, regex_error, CaptureView, Pattern};
use crate::snippets::{span, AnnotationView, Message, MessageView, SnippetView};
use crate::text::{blen, concat7, is_ws, str_eq, trim_start};
use crate::tree::NodeKind;

verus! {

/// The pattern of an SPDX license line; group 1 is the license.
pub open spec fn spdx_pattern() -> Seq<char> {
    "(?m)^\\s*(?://|#|/\\*+|\\*)\\s*SPDX-License-Identifier\\s*:\\s*(.+?)\\s*(?:\\*/)?\\s*$"@
}

/// Compiles the pattern of an SPDX license line.
pub fn spdx_regex() -> (r: Result<Pattern, String>)
    ensures
        r is Ok <==> regex_compiles(spdx_pattern()),
        r matches Ok(p) ==> p@ == spdx_pattern(),
        r matches Err(e) ==> e@ == regex_error(spdx_pattern()),
{
    proof {
        reveal_strlit("(?m)^\\s*(?://|#|/\\*+|\\*)\\s*SPDX-License-Identifier\\s*:\\s*(.+?)\\s*(?:\\*/)?\\s*$");
    }
    compile("(?m)^\\s*(?://|#|/\\*+|\\*)\\s*SPDX-License-Identifier\\s*:\\s*(.+?)\\s*(?:\\*/)?\\s*$")
}

/// The first word of a text: its first run of non-whitespace characters.
pub open spec fn first_word(s: Seq<char>) -> Seq<char> {
    let t = trim_start(s);
    t.take(word_len(t, 0))
}

/// The length of the run of non-whitespace characters from `i`.
pub open spec fn word_len(t: Seq<char>, i: int) -> int
    decreases t.len() - i,
{
    if i < 0 || i >= t.len() || is_ws(t[i]) {
        if i < 0 { 0 } else { i }
    } else {
        word_len(t, i + 1)
    }
}

/// The license a code block's text names: group 1 of the first license
/// line, if there is one with that group.
pub open spec fn license_of(literal: Seq<char>) -> Option<Seq<char>> {
    let caps = regex_captures(spdx_pattern(), literal);
    if caps.len() > 0 && caps[0].len() > 1 && caps[0][1] is Some {
        Some(caps[0][1]->0.text)
    } else {
        None
    }
}

/// Code blocks whose language (the first word of their info) is
/// `language` must name the license `license`.
#[derive(Debug, Clone)]
pub struct CodeBlockLicense {
    pub language: String,
    pub license: String,
}

impl CodeBlockLicense {
    /// The message for one node, if it is a code block of the language
    /// whose license line names another license.
    pub open spec fn block_message(&self, ctx: &Context, slug: Seq<char>, n: crate::tree::Node) -> Option<MessageView> {
        match n.value {
            NodeKind::CodeBlock { info, literal } => if first_word(info@) != self.language@ {
                None
            } else {
                match license_of(literal@) {
                    None => None,
                    Some(actual) => if actual == self.license@ {
                        None
                    } else {
                        let source = ast_lines_spec(ctx, n);
                        Some(
                            lint_message(
                                ctx.annotation_level,
                                slug,
                                "code block of type `"@ + self.language@ + "` must use license `"@ + self.license@
                                    + "`, not `"@ + actual + "`"@,
                                seq![
                                    SnippetView {
                                        source,
                                        line_start: n.start_line as int,
                                        origin: ctx.origin_view(),
                                        fold: true,
                                        annotations: seq![
                                            AnnotationView { level: ctx.annotation_level, start: 0, end: blen(source) as int, label: None },
                                        ],
                                    },
                                ],
                                seq![],
                            ),
                        )
                    },
                }
            },
            _ => None,
        }
    }

    /// The messages for the first `k` nodes.
    pub open spec fn blocks_upto(&self, ctx: &Context, slug: Seq<char>, k: int) -> Seq<MessageView>
        decreases k,
    {
        if k <= 0 {
            seq![]
        } else {
            let prev = self.blocks_upto(ctx, slug, k - 1);
            match self.block_message(ctx, slug, ctx.body@[k - 1]) {
                Some(m) => prev.push(m),
                None => prev,
            }
        }
    }

    /// An error when the license pattern does not compile; otherwise, for
    /// each code block of the language whose license line names another
    /// license, one message showing the block.
    pub open spec fn spec_lint(&self, slug: Seq<char>, ctx: &Context) -> Result<Seq<MessageView>, Seq<char>> {
        if !regex_compiles(spdx_pattern()) {
            Err(regex_error(spdx_pattern()))
        } else {
            Ok(self.blocks_upto(ctx, slug, ctx.body@.len() as int))
        }
    }

    pub fn lint(&self, slug: &str, ctx: &Context) -> (r: Result<Vec<Message>, Error>)
        requires
            ctx.body_wf(),
        ensures
            result_view(r) == self.spec_lint(slug@, ctx),
    {
        let re = match spdx_regex() {
            Ok(re) => re,
            Err(message) => return Err(Error::Custom { message }),
        };
        let mut msgs: Vec<Message> = Vec::new();
        let mut i: usize = 0;
        while i < ctx.body.len()
            invariant
                ctx.body_wf(),
                re@ == spdx_pattern(),
                i <= ctx.body@.len(),
                msgs@.map_values(|m: Message| m@) == self.blocks_upto(ctx, slug@, i as int),
            decreases ctx.body@.len() - i,
        {
            let m = self.message_for(slug, ctx, &re, i);
            match m {
                Some(m) => {
                    let ghost before = msgs@.map_values(|m: Message| m@);
                    msgs.push(m);
                    assert(msgs@.map_values(|m: Message| m@) =~= before.push(m@));
                },
                None => {},
            }
            i += 1;
        }
        Ok(msgs)
    }

    /// The message for the node at `i`.
    fn message_for(&self, slug: &str, ctx: &Context, re: &Pattern, i: usize) -> (r: Option<Message>)
        requires
            ctx.body_wf(),
            re@ == spdx_pattern(),
            i < ctx.body@.len(),
        ensures
            match r {
                Some(m) => self.block_message(ctx, slug@, ctx.body@[i as int]) == Some(m@),
                None => self.block_message(ctx, slug@, ctx.body@[i as int]) is None,
            },
    {
        let n = &ctx.body[i];
        if let NodeKind::CodeBlock { info, literal } = &n.value {
            let word = first_word_of(info.as_str());
            if !str_eq(word.as_str(), self.language.as_str()) {
                return None;
            }
            let actual = match license_in(re, literal.as_str()) {
                Some(a) => a,
                None => return None,
            };
            if str_eq(actual.as_str(), self.license.as_str()) {
                return None;
            }
            assert(node_in_source(ctx, ctx.body@[i as int]));
            let m = self.license_message(slug, ctx, n, actual.as_str());
            Some(m)
        } else {
            None
        }
    }

    /// The message for a code block whose license line names `actual`.
    fn license_message(&self, slug: &str, ctx: &Context, n: &crate::tree::Node, actual: &str) -> (m: Message)
        requires
            ctx.body_wf(),
            node_in_source(ctx, *n),
        ensures
            m@ == ({
                let source = ast_lines_spec(ctx, *n);
                lint_message(
                    ctx.annotation_level,
                    slug@,
                    "code block of type `"@ + self.language@ + "` must use license `"@ + self.license@
                        + "`, not `"@ + actual@ + "`"@,
                    seq![
                        SnippetView {
                            source,
                            line_start: n.start_line as int,
                            origin: ctx.origin_view(),
                            fold: true,
                            annotations: seq![
                                AnnotationView { level: ctx.annotation_level, start: 0, end: blen(source) as int, label: None },
                            ],
                        },
                    ],
                    seq![],
                )
            }),
    {
        let source = ctx.ast_lines(n);
        proof {
            crate::lints::markdown::lemma_ast_lines_blen(ctx, *n);
        }
        let len = crate::text::str_byte_len(source.as_str());
        let title = concat7("code block of type `", self.language.as_str(), "` must use license `", self.license.as_str(), "`, not `", actual, "`");
        let ann = span(ctx.annotation_level(), 0, len, None);
        let ghost av = ann@;
        let snip = crate::snippets::snippet(source.as_str(), n.start_line, ctx.origin(), true, crate::lints::vec1(ann));
        assert(snip@.annotations =~= seq![av]);
        proof {
            reveal_strlit("code block of type `");
            reveal_strlit("` must use license `");
            reveal_strlit("`, not `");
            reveal_strlit("`");
        }
        message_one(ctx.annotation_level(), slug, title, snip)
    }
}

/// The license that the first license line of a text names.
fn license_in(re: &Pattern, literal: &str) -> (r: Option<String>)
    requires
        re@ == spdx_pattern(),
    ensures
        match r {
            Some(s) => license_of(literal@) == Some(s@),
            None => license_of(literal@) is None,
        },
{
    let caps = captures(re, literal);
    if caps.len() == 0 {
        return None;
    }
    let g = &caps[0];
    assert(groups_view(g@) == regex_captures(spdx_pattern(), literal@)[0]);
    if g.len() < 2 {
        return None;
    }
    assert(regex_captures(spdx_pattern(), literal@)[0][1] == crate::pattern::opt_capture_view(g@[1]));
    match &g[1] {
        Some(c) => Some(c.text.clone()),
        None => None,
    }
}

/// The first word of a text.
fn first_word_of(s: &str) -> (r: String)
    ensures
        r@ == first_word(s@),
{
    let c = crate::text::chars_of(s);
    let start = crate::text::trim_start_index(c.as_slice());
    let t = vstd::slice::slice_subrange(c.as_slice(), start, c.len());
    assert(t@ =~= trim_start(s@));
    let mut i: usize = 0;
    while i < t.len() && !crate::text::is_whitespace(t[i])
        invariant
            i <= t@.len(),
            word_len(t@, 0) == word_len(t@, i as int),
        decreases t@.len() - i,
    {
        i += 1;
    }
    let w = vstd::slice::slice_subrange(t, 0, i);
    assert(w@ =~= t@.take(i as int));
    crate::text::string_of(w)
}

impl CodeBlockLicense {
    /// The messages for the first `k` nodes are, in order, those of the code
    /// blocks that draw one.
    proof fn lemma_blocks_filter(&self, ctx: &Context, slug: Seq<char>, k: int)
        requires
            0 <= k <= ctx.body@.len(),
        ensures
            self.blocks_upto(ctx, slug, k) == Seq::new(k as nat, |i: int| i).filter(
                |i: int| self.block_message(ctx, slug, ctx.body@[i]) is Some,
            ).map_values(|i: int| self.block_message(ctx, slug, ctx.body@[i])->0),
        decreases k,
    {
        reveal(Seq::filter);
        let pred = |i: int| self.block_message(ctx, slug, ctx.body@[i]) is Some;
        let msg = |i: int| self.block_message(ctx, slug, ctx.body@[i])->0;
        let t = Seq::new(k as nat, |i: int| i);
        if k > 0 {
            self.lemma_blocks_filter(ctx, slug, k - 1);
            assert(t.drop_last() =~= Seq::new((k - 1) as nat, |i: int| i));
            assert(t.last() == k - 1);
            let sub = t.drop_last().filter(pred);
            assert(t.filter(pred) == if pred(t.last()) {
                sub.push(t.last())
            } else {
                sub
            });
            assert(sub.push(t.last()).map_values(msg) =~= sub.map_values(msg).push(msg(t.last())));
        } else {
            assert(t =~= Seq::<int>::empty());
            assert(t.filter(pred) =~= Seq::<int>::empty());
            assert(t.filter(pred).map_values(msg) =~= Seq::<MessageView>::empty());
        }
    }
}

/// Once the license pattern compiles, the lint raises, in document order,
/// exactly one message for each code block of the language whose license
/// line names another license, wherever it stands, and no other.
pub proof fn law_code_block_license_exact(lint: CodeBlockLicense, slug: Seq<char>, ctx: &Context)
    ensures
        regex_compiles(spdx_pattern()) ==> lint.spec_lint(slug, ctx) == Ok::<Seq<MessageView>, Seq<char>>(
            Seq::new(ctx.body@.len(), |i: int| i).filter(|i: int| lint.block_message(ctx, slug, ctx.body@[i]) is Some).map_values(
                |i: int| lint.block_message(ctx, slug, ctx.body@[i])->0,
            ),
        ),
{
    lint.lemma_blocks_filter(ctx, slug, ctx.body@.len() as int);
}

} // verus!
