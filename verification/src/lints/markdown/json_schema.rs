//! Code blocks of a language must hold JSON that conforms to a schema.

use vstd::prelude::*;

use crate::collate::sorted_strings;

use crate::json::{
    build_schema, json_error, json_parses, parse_json, resource_error, resource_ok, build_failed, schema_builds,
    schema_errors, validate, Schema, SchemaOptions,
};
use crate::lints::markdown::{ast_lines_spec, ast_snippet_spec, lemma_ast_lines_blen, node_in_source};
use crate::lints::{lint_message, new_message, result_view, strings_view, vec1, Context, Error};
use crate::snippets::{span, Annotation, AnnotationView, FooterView, Level, Message, MessageView, SnippetView};
use crate::text::{blen, concat3, str_eq};
use crate::tree::{Node, NodeKind};

verus! {

/// Code blocks whose info string is `language` must hold JSON that
/// conforms to `schema` (draft 7), which may refer to the
/// `additional_schemas` by their addresses.
#[derive(Debug, Clone)]
pub struct JsonSchema {
    pub language: String,
    pub additional_schemas: Vec<(String, String)>,
    pub schema: String,
    pub help: String,
}

/// The additional schemas, as pairs of texts.
pub open spec fn pairs_view(v: Seq<(String, String)>) -> Seq<(Seq<char>, Seq<char>)> {
    v.map_values(|p: (String, String)| (p.0@, p.1@))
}

/// What adding the first `k` additional schemas gives: the first error,
/// or all of them added.
pub open spec fn add_schemas(extra: Seq<(Seq<char>, Seq<char>)>, k: int) -> Result<Seq<(Seq<char>, Seq<char>)>, Seq<char>>
    decreases k,
{
    if k <= 0 {
        Ok(seq![])
    } else {
        match add_schemas(extra, k - 1) {
            Err(e) => Err(e),
            Ok(done) => {
                let text = extra[k - 1].1;
                if !json_parses(text) {
                    Err(json_error(text))
                } else if !resource_ok(text) {
                    Err(resource_error(text))
                } else {
                    Ok(done.push(extra[k - 1]))
                }
            },
        }
    }
}

impl JsonSchema {
    /// The schema's resources, or the error that reading it gives.
    pub open spec fn setup(&self) -> Result<Seq<(Seq<char>, Seq<char>)>, Seq<char>> {
        if !json_parses(self.schema@) {
            Err(json_error(self.schema@))
        } else {
            match add_schemas(pairs_view(self.additional_schemas@), self.additional_schemas@.len() as int) {
                Err(e) => Err(e),
                Ok(res) => if !schema_builds(res, self.schema@) {
                    Err(build_failed())
                } else {
                    Ok(res)
                },
            }
        }
    }

    /// The message, if any, for node `n` when the schema was built with
    /// `res`.
    pub open spec fn block_message(&self, ctx: &Context, slug: Seq<char>, res: Seq<(Seq<char>, Seq<char>)>, n: Node) -> Option<MessageView> {
        match n.value {
            NodeKind::CodeBlock { info, literal } => if info@ != self.language@ {
                None
            } else if !json_parses(literal@) {
                Some(
                    lint_message(
                        ctx.annotation_level,
                        slug,
                        "code block of type `"@ + info@ + "` does not contain valid JSON"@,
                        seq![ast_snippet_spec(ctx, n, ctx.annotation_level, Some(json_error(literal@)))],
                        seq![],
                    ),
                )
            } else {
                match schema_errors(res, self.schema@, literal@) {
                    None => None,
                    Some(labels) => {
                        let source = ast_lines_spec(ctx, n);
                        Some(
                            lint_message(
                                ctx.annotation_level,
                                slug,
                                "code block of type `"@ + info@ + "` does not conform to required schema"@,
                                seq![
                                    SnippetView {
                                        source,
                                        line_start: n.start_line as int,
                                        origin: ctx.origin_view(),
                                        fold: false,
                                        annotations: sorted_strings(labels).map_values(
                                            |l: Seq<char>|
                                                AnnotationView {
                                                    level: ctx.annotation_level,
                                                    start: 0,
                                                    end: blen(source) as int,
                                                    label: Some(l),
                                                },
                                        ),
                                    },
                                ],
                                seq![FooterView { level: Level::Help, title: self.help@ }],
                            ),
                        )
                    },
                }
            },
            _ => None,
        }
    }

    /// The messages for the first `k` nodes.
    pub open spec fn blocks_upto(&self, ctx: &Context, slug: Seq<char>, res: Seq<(Seq<char>, Seq<char>)>, k: int) -> Seq<MessageView>
        decreases k,
    {
        if k <= 0 {
            seq![]
        } else {
            let prev = self.blocks_upto(ctx, slug, res, k - 1);
            match self.block_message(ctx, slug, res, ctx.body@[k - 1]) {
                Some(m) => prev.push(m),
                None => prev,
            }
        }
    }

    /// The error that reading the schemas gives; otherwise, for each code
    /// block of the language, a message when it is not JSON, or when its
    /// JSON does not conform, listing the schema's errors.
    pub open spec fn spec_lint(&self, slug: Seq<char>, ctx: &Context) -> Result<Seq<MessageView>, Seq<char>> {
        match self.setup() {
            Err(e) => Err(e),
            Ok(res) => Ok(self.blocks_upto(ctx, slug, res, ctx.body@.len() as int)),
        }
    }

    /// Builds the schema.
    fn schema_of(&self) -> (r: Result<Schema, String>)
        ensures
            match self.setup() {
                Err(e) => r matches Err(x) && x@ == e,
                Ok(res) => r matches Ok(s) && s@ == (res, self.schema@),
            },
    {
        let schema = match parse_json(self.schema.as_str()) {
            Ok(j) => j,
            Err(e) => return Err(e),
        };
        let mut options = SchemaOptions::new();
        let ghost extra = pairs_view(self.additional_schemas@);
        let mut k: usize = 0;
        while k < self.additional_schemas.len()
            invariant
                extra == pairs_view(self.additional_schemas@),
                json_parses(self.schema@),
                schema@ == self.schema@,
                k <= self.additional_schemas@.len(),
                add_schemas(extra, k as int) == Ok::<Seq<(Seq<char>, Seq<char>)>, Seq<char>>(options@),
            decreases self.additional_schemas@.len() - k,
        {
            let (url, text) = (&self.additional_schemas[k].0, &self.additional_schemas[k].1);
            assert(extra[k as int] == (url@, text@));
            let j = match parse_json(text.as_str()) {
                Ok(j) => j,
                Err(e) => {
                    proof {
                        assert(add_schemas(extra, k + 1) == Err::<Seq<(Seq<char>, Seq<char>)>, Seq<char>>(e@));
                        lemma_add_schemas_err(extra, k + 1, extra.len() as int);
                    }
                    return Err(e);
                },
            };
            match options.add(url.as_str(), &j) {
                Ok(()) => {},
                Err(e) => {
                    proof {
                        assert(add_schemas(extra, k + 1) == Err::<Seq<(Seq<char>, Seq<char>)>, Seq<char>>(e@));
                        lemma_add_schemas_err(extra, k + 1, extra.len() as int);
                    }
                    return Err(e);
                },
            }
            k += 1;
        }
        build_schema(&options, &schema)
    }

    pub fn lint(&self, slug: &str, ctx: &Context) -> (r: Result<Vec<Message>, Error>)
        requires
            ctx.body_wf(),
        ensures
            result_view(r) == self.spec_lint(slug@, ctx),
    {
        let schema = match self.schema_of() {
            Ok(s) => s,
            Err(message) => return Err(Error::Custom { message }),
        };
        let ghost res = schema@.0;
        let mut msgs: Vec<Message> = Vec::new();
        let mut i: usize = 0;
        while i < ctx.body.len()
            invariant
                ctx.body_wf(),
                schema@ == (res, self.schema@),
                i <= ctx.body@.len(),
                msgs@.map_values(|m: Message| m@) == self.blocks_upto(ctx, slug@, res, i as int),
            decreases ctx.body@.len() - i,
        {
            assert(node_in_source(ctx, ctx.body@[i as int]));
            match self.message_for(slug, ctx, &schema, &ctx.body[i]) {
                Some(m) => {
                    let ghost before = msgs@.map_values(|m: Message| m@);
                    msgs.push(m);
                    assert(msgs@.map_values(|m: Message| m@) =~= before.push(m@));
                },
                None => {},
            }
            i += 1;
        }
        Ok(msgs)
    }

    /// The message, if any, for one node.
    fn message_for(&self, slug: &str, ctx: &Context, schema: &Schema, n: &Node) -> (r: Option<Message>)
        requires
            ctx.body_wf(),
            node_in_source(ctx, *n),
            schema@.1 == self.schema@,
        ensures
            match r {
                Some(m) => self.block_message(ctx, slug@, schema@.0, *n) == Some(m@),
                None => self.block_message(ctx, slug@, schema@.0, *n) is None,
            },
    {
        let (info, literal) = match &n.value {
            NodeKind::CodeBlock { info, literal } => (info, literal),
            _ => return None,
        };
        if !str_eq(info.as_str(), self.language.as_str()) {
            return None;
        }
        let j = match parse_json(literal.as_str()) {
            Ok(j) => j,
            Err(e) => {
                let snip = ctx.ast_snippet(n, None, Some(e));
                let ghost sv = snip@;
                let title = concat3("code block of type `", info.as_str(), "` does not contain valid JSON");
                let m = new_message(ctx.annotation_level(), slug, title, vec1(snip), Vec::new());
                proof {
                    reveal_strlit("code block of type `");
                    reveal_strlit("` does not contain valid JSON");
                    assert(m@.snippets =~= seq![sv]);
                    assert(m@.footers =~= Seq::<FooterView>::empty());
                }
                return Some(m);
            },
        };
        let labels = match validate(schema, &j) {
            None => return None,
            Some(l) => crate::collate::sort_strings(l),
        };
        let source = ctx.ast_lines(n);
        proof {
            lemma_ast_lines_blen(ctx, *n);
        }
        let len = crate::text::str_byte_len(source.as_str());
        let mut anns: Vec<Annotation> = Vec::new();
        let mut k: usize = 0;
        while k < labels.len()
            invariant
                k <= labels@.len(),
                len == blen(source@),
                anns@.map_values(|a: Annotation| a@) == strings_view(labels@).take(k as int).map_values(
                    |l: Seq<char>| AnnotationView { level: ctx.annotation_level, start: 0, end: blen(source@) as int, label: Some(l) },
                ),
            decreases labels@.len() - k,
        {
            let a = span(ctx.annotation_level(), 0, len, Some(labels[k].clone()));
            let ghost before = anns@.map_values(|a: Annotation| a@);
            anns.push(a);
            assert(strings_view(labels@).take(k + 1) =~= strings_view(labels@).take(k as int).push(labels@[k as int]@));
            assert(anns@.map_values(|a: Annotation| a@) =~= before.push(a@));
            k += 1;
        }
        assert(strings_view(labels@).take(labels@.len() as int) =~= strings_view(labels@));
        let snip = crate::snippets::snippet(source.as_str(), n.start_line, ctx.origin(), false, anns);
        let ghost sv = snip@;
        let foot = crate::snippets::footer(Level::Help, self.help.clone());
        let ghost fv = foot@;
        let title = concat3("code block of type `", info.as_str(), "` does not conform to required schema");
        let m = new_message(ctx.annotation_level(), slug, title, vec1(snip), vec1(foot));
        proof {
            reveal_strlit("code block of type `");
            reveal_strlit("` does not conform to required schema");
            assert(m@.snippets =~= seq![sv]);
            assert(m@.footers =~= seq![fv]);
        }
        Some(m)
    }
}

/// Once adding a schema fails, the error stays the first one.
proof fn lemma_add_schemas_err(extra: Seq<(Seq<char>, Seq<char>)>, k: int, m: int)
    requires
        0 <= k <= m,
        add_schemas(extra, k) is Err,
    ensures
        add_schemas(extra, m) == add_schemas(extra, k),
    decreases m - k,
{
    if k < m {
        lemma_add_schemas_err(extra, k, m - 1);
    }
}

impl JsonSchema {
    /// The messages for the first `k` nodes are, in order, those of the code
    /// blocks that draw one.
    proof fn lemma_blocks_filter(&self, ctx: &Context, slug: Seq<char>, res: Seq<(Seq<char>, Seq<char>)>, k: int)
        requires
            0 <= k <= ctx.body@.len(),
        ensures
            self.blocks_upto(ctx, slug, res, k) == Seq::new(k as nat, |i: int| i).filter(
                |i: int| self.block_message(ctx, slug, res, ctx.body@[i]) is Some,
            ).map_values(|i: int| self.block_message(ctx, slug, res, ctx.body@[i])->0),
        decreases k,
    {
        reveal(Seq::filter);
        let pred = |i: int| self.block_message(ctx, slug, res, ctx.body@[i]) is Some;
        let msg = |i: int| self.block_message(ctx, slug, res, ctx.body@[i])->0;
        let t = Seq::new(k as nat, |i: int| i);
        if k > 0 {
            self.lemma_blocks_filter(ctx, slug, res, k - 1);
            assert(t.drop_last() =~= Seq::new((k - 1) as nat, |i: int| i));
            assert(t.last() == k - 1);
            let sub = t.drop_last().filter(pred);
            assert(t.filter(pred) == if pred(t.last()) {
                sub.push(t.last())
            } else {
                sub
            });
            assert(sub.push(t.last()).map_values(msg) =~= sub.map_values(msg).push(msg(t.last())));
        } else {
            assert(t =~= Seq::<int>::empty());
            assert(t.filter(pred) =~= Seq::<int>::empty());
            assert(t.filter(pred).map_values(msg) =~= Seq::<MessageView>::empty());
        }
    }
}

/// Once the schemas are read, the lint raises, in document order, exactly
/// one message for each code block of the language that is not JSON or does
/// not conform, wherever it stands, and no other.
pub proof fn law_json_schema_exact(lint: JsonSchema, slug: Seq<char>, ctx: &Context)
    ensures
        match lint.setup() {
            Err(e) => lint.spec_lint(slug, ctx) == Err::<Seq<MessageView>, Seq<char>>(e),
            Ok(res) => lint.spec_lint(slug, ctx) == Ok::<Seq<MessageView>, Seq<char>>(
                Seq::new(ctx.body@.len(), |i: int| i).filter(
                    |i: int| lint.block_message(ctx, slug, res, ctx.body@[i]) is Some,
                ).map_values(|i: int| lint.block_message(ctx, slug, res, ctx.body@[i])->0),
            ),
        },
{
    if let Ok(res) = lint.setup() {
        lint.lemma_blocks_filter(ctx, slug, res, ctx.body@.len() as int);
    }
}

} // verus!
