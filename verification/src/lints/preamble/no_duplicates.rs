//! A header may be given only once.

use vstd::prelude::*;

use crate::lints::{field_snippet1, field_snippet_spec, lint_message, new_message, Context};
use crate::preamble::{find_field, FieldView};
use crate::snippets::{span, AnnotationView, Level, Message, MessageView, Snippet};
use crate::text::{blen, concat3, str_byte_len};

verus! {

/// No header name may occur twice in the preamble.
#[derive(Debug, Clone, Copy)]
pub struct NoDuplicates;

/// The annotation covering a whole header line.
pub open spec fn whole_line(level: Level, f: FieldView, label: Seq<char>) -> AnnotationView {
    AnnotationView { level, start: 0, end: blen(f.source) as int, label: Some(label) }
}

/// The message for header `f`, which repeats the earlier header `o`.
pub open spec fn duplicate_message(
    level: Level,
    slug: Seq<char>,
    origin: Option<Seq<char>>,
    o: FieldView,
    f: FieldView,
) -> MessageView {
    lint_message(
        level,
        slug,
        "preamble header `"@ + o.name + "` defined multiple times"@,
        seq![
            field_snippet_spec(o, origin, seq![whole_line(Level::Info, o, "first defined here"@)]),
            field_snippet_spec(f, origin, seq![whole_line(level, f, "redefined here"@)]),
        ],
        seq![],
    )
}

/// The messages for the first `k` headers: one for each header whose name
/// was already used, pointing at its first use.
pub open spec fn duplicate_messages(
    level: Level,
    slug: Seq<char>,
    origin: Option<Seq<char>>,
    fields: Seq<FieldView>,
    k: int,
) -> Seq<MessageView>
    decreases k,
{
    if k <= 0 {
        seq![]
    } else {
        let prev = duplicate_messages(level, slug, origin, fields, k - 1);
        let f = fields[k - 1];
        match find_field(fields.take(k - 1), f.name) {
            None => prev,
            Some(o) => prev.push(duplicate_message(level, slug, origin, o, f)),
        }
    }
}

/// No two of the first `k` headers share a name.
pub open spec fn distinct_names(fields: Seq<FieldView>, k: int) -> bool {
    forall|i: int, j: int| 0 <= i < j < k ==> #[trigger] fields[i].name != #[trigger] fields[j].name
}

/// The duplicate check raises no message for a preamble exactly when no
/// two headers share a name; otherwise it raises one per header that
/// repeats an earlier header's name.
pub proof fn law_no_duplicates(level: Level, slug: Seq<char>, origin: Option<Seq<char>>, fields: Seq<FieldView>)
    ensures
        duplicate_messages(level, slug, origin, fields, fields.len() as int).len() == 0 <==> distinct_names(
            fields,
            fields.len() as int,
        ),
{
    lemma_no_duplicates_upto(level, slug, origin, fields, fields.len() as int);
}

proof fn lemma_no_duplicates_upto(level: Level, slug: Seq<char>, origin: Option<Seq<char>>, fields: Seq<FieldView>, k: int)
    requires
        0 <= k <= fields.len(),
    ensures
        duplicate_messages(level, slug, origin, fields, k).len() == 0 <==> distinct_names(fields, k),
    decreases k,
{
    if k > 0 {
        lemma_no_duplicates_upto(level, slug, origin, fields, k - 1);
        let f = fields[k - 1];
        let pre = fields.take(k - 1);
        crate::preamble::lemma_find_field_in(pre, f.name);
        match find_field(pre, f.name) {
            Some(o) => {
                let i = choose|i: int| 0 <= i < pre.len() && pre[i] == o;
                assert(fields[i].name == fields[k - 1].name);
                assert(!distinct_names(fields, k));
            },
            None => {
                if distinct_names(fields, k - 1) {
                    assert forall|i: int, j: int| 0 <= i < j < k implies #[trigger] fields[i].name != #[trigger] fields[j].name by {
                        if j == k - 1 {
                            assert(pre[i] == fields[i]);
                        }
                    }
                } else {
                    let (i, j) = choose|i: int, j: int| 0 <= i < j < k - 1 && #[trigger] fields[i].name == #[trigger] fields[j].name;
                    assert(!distinct_names(fields, k));
                }
            },
        }
    }
}

impl NoDuplicates {
    /// One message for each header whose name an earlier header already
    /// has, in the order of the repeats.
    pub open spec fn spec_lint(&self, slug: Seq<char>, ctx: &Context) -> Seq<MessageView> {
        let fields = ctx.preamble@;
        duplicate_messages(ctx.annotation_level, slug, ctx.origin_view(), fields, fields.len() as int)
    }

    pub fn lint(&self, slug: &str, ctx: &Context) -> (r: Vec<Message>)
        requires
            ctx.wf(),
        ensures
            r@.map_values(|m: Message| m@) == self.spec_lint(slug@, ctx),
    {
        let level = ctx.annotation_level();
        let preamble = ctx.preamble();
        let fields = &preamble.fields;
        let ghost fv = ctx.preamble@;
        let mut msgs: Vec<Message> = Vec::new();
        let mut i: usize = 0;
        while i < fields.len()
            invariant
                ctx.wf(),
                preamble == &ctx.preamble,
                fields == &ctx.preamble.fields,
                fv == ctx.preamble@,
                i <= fields@.len(),
                msgs@.map_values(|m: Message| m@) == duplicate_messages(level, slug@, ctx.origin_view(), fv, i as int),
            decreases fields@.len() - i,
        {
            let field = &fields[i];
            assert(fv[i as int] == field@);
            assert(ctx.preamble.fields@[i as int]@.wf());
            match preamble.position_before(i, field.name()) {
                None => {},
                Some(j) => {
                    let first_def = &fields[j];
                    assert(ctx.preamble.fields@[j as int]@.wf());
                    let title = concat3("preamble header `", first_def.name(), "` defined multiple times");
                    let first = span(Level::Info, 0, str_byte_len(first_def.source()), Some(String::from_str("first defined here")));
                    let again = span(level, 0, str_byte_len(field.source()), Some(String::from_str("redefined here")));
                    let s1 = field_snippet1(first_def, ctx.origin(), first);
                    let s2 = field_snippet1(field, ctx.origin(), again);
                    let ghost v1 = s1@;
                    let ghost v2 = s2@;
                    let mut snippets = Vec::new();
                    snippets.push(s1);
                    snippets.push(s2);
                    let m = new_message(level, slug, title, snippets, Vec::new());
                    proof {
                        reveal_strlit("preamble header `");
                        reveal_strlit("` defined multiple times");
                        reveal_strlit("first defined here");
                        reveal_strlit("redefined here");
                        assert(m@.snippets =~= seq![v1, v2]);
                        assert(m@.footers =~= seq![]);
                    }
                    let ghost before = msgs@.map_values(|m: Message| m@);
                    msgs.push(m);
                    assert(msgs@.map_values(|m: Message| m@) =~= before.push(m@));
                },
            }
            assert(fv.take(i as int) == ctx.preamble@.take(i as int));
            assert(msgs@.map_values(|m: Message| m@) =~= duplicate_messages(level, slug@, ctx.origin_view(), fv, i + 1));
            i += 1;
        }
        msgs
    }
}

} // verus!
