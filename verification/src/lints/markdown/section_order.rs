//! The sections the body may have, and the order they must come in.

use vstd::prelude::*;

use crate::lints::markdown::{
    ast_snippet_spec, heading_text, is_section, node_in_source, section_headings, section_texts, sections,
};
use crate::lints::{lint_message, new_message, strings_view, vec1, Context};
use crate::snippets::{Message, MessageView, Snippet, SnippetView};
use crate::text::{concat5, str_eq};
use crate::tree::Node;

verus! {

/// Only the listed sections (level-2 headings) may appear, and in the
/// listed order.
#[derive(Debug, Clone)]
pub struct SectionOrder(pub Vec<String>);

/// The snippets of the first `k` level-2 headings whose text is not listed.
pub open spec fn unknown_sections(ctx: &Context, names: Seq<Seq<char>>, k: int) -> Seq<SnippetView>
    decreases k,
{
    if k <= 0 {
        seq![]
    } else {
        let b = ctx.body@;
        let prev = unknown_sections(ctx, names, k - 1);
        if names.contains(section_texts(b)[k - 1]) {
            prev
        } else {
            prev.push(ast_snippet_spec(ctx, b[sections(b, b.len() as int)[k - 1]], ctx.annotation_level, None))
        }
    }
}

/// The position among the first `k` level-2 headings of the last one whose
/// text is `name`.
pub open spec fn last_section(texts: Seq<Seq<char>>, name: Seq<char>, k: int) -> Option<int>
    decreases k,
{
    if k <= 0 {
        None
    } else if texts[k - 1] == name {
        Some(k - 1)
    } else {
        last_section(texts, name, k - 1)
    }
}

/// Walking the first `k` listed names: the messages so far, and the start
/// line of the last section found (0 before any).
pub open spec fn section_scan(ctx: &Context, slug: Seq<char>, names: Seq<Seq<char>>, k: int) -> (Seq<MessageView>, int)
    decreases k,
{
    if k <= 0 {
        (seq![], 0)
    } else {
        let (msgs, cur) = section_scan(ctx, slug, names, k - 1);
        let b = ctx.body@;
        let texts = section_texts(b);
        let name = names[k - 1];
        match last_section(texts, name, texts.len() as int) {
            None => (msgs, cur),
            Some(s) => {
                let n = b[sections(b, b.len() as int)[s]];
                if n.start_line >= cur {
                    (msgs, n.start_line as int)
                } else {
                    (
                        msgs.push(
                            lint_message(
                                ctx.annotation_level,
                                slug,
                                "section `"@ + name + "` must come after `"@ + names[k - 2] + "`"@,
                                seq![ast_snippet_spec(ctx, n, ctx.annotation_level, None)],
                                seq![],
                            ),
                        ),
                        n.start_line as int,
                    )
                }
            },
        }
    }
}

impl SectionOrder {
    /// One message marking every level-2 heading whose text is not listed,
    /// if there is one; then, walking the listed names in order, one for
    /// each section found on an earlier line than the section found before
    /// it (a name names its last heading), saying that it must come after
    /// the name listed just before its own.
    pub open spec fn spec_lint(&self, slug: Seq<char>, ctx: &Context) -> Seq<MessageView> {
        let names = strings_view(self.0@);
        let unknowns = unknown_sections(ctx, names, section_texts(ctx.body@).len() as int);
        let first = if unknowns.len() == 0 {
            seq![]
        } else {
            seq![lint_message(ctx.annotation_level, slug, "body has extra section(s)"@, unknowns, seq![])]
        };
        first + section_scan(ctx, slug, names, names.len() as int).0
    }

    #[verifier::rlimit(40)]
    pub fn lint(&self, slug: &str, ctx: &Context) -> (r: Vec<Message>)
        requires
            ctx.body_wf(),
        ensures
            r@.map_values(|m: Message| m@) == self.spec_lint(slug@, ctx),
    {
        let b = &ctx.body;
        let (at, texts) = section_headings(b);
        let ghost names = strings_view(self.0@);
        let ghost heads = sections(b@, b@.len() as int);
        let ghost stexts = section_texts(b@);
        proof {
            lemma_sections_in(b@, b@.len() as int);
        }
        assert(strings_view(texts@).len() == texts@.len());
        assert(at@.map_values(|i: usize| i as int).len() == at@.len());
        assert(texts@.len() == at@.len());
        let mut unknowns: Vec<Snippet> = Vec::new();
        let mut k: usize = 0;
        while k < at.len()
            invariant
                ctx.body_wf(),
                b == &ctx.body,
                heads == sections(b@, b@.len() as int),
                stexts == section_texts(b@),
                at@.map_values(|i: usize| i as int) == heads,
                strings_view(texts@) == stexts,
                texts@.len() == at@.len(),
                names == strings_view(self.0@),
                forall|j: int| 0 <= j < heads.len() ==> 0 <= #[trigger] heads[j] < b@.len(),
                k <= at@.len(),
                unknowns@.map_values(|s: Snippet| s@) == unknown_sections(ctx, names, k as int),
            decreases at@.len() - k,
        {
            assert(heads[k as int] == at@[k as int] as int);
            if !self.lists(texts[k].as_str()) {
                let node = &b[at[k]];
                assert(node_in_source(ctx, b@[at@[k as int] as int]));
                let s = ctx.ast_snippet(node, None, None);
                unknowns.push(s);
            }
            assert(unknowns@.map_values(|s: Snippet| s@) =~= unknown_sections(ctx, names, k + 1));
            k += 1;
        }
        let mut r: Vec<Message> = Vec::new();
        if unknowns.len() > 0 {
            let m = new_message(ctx.annotation_level(), slug, String::from_str("body has extra section(s)"), unknowns, Vec::new());
            proof {
                reveal_strlit("body has extra section(s)");
                assert(m@.footers =~= seq![]);
            }
            r.push(m);
        }
        let ghost r0 = r@.map_values(|m: Message| m@);
        proof {
            reveal_strlit("body has extra section(s)");
        }
        let mut max_line: usize = 0;
        let mut i: usize = 0;
        while i < self.0.len()
            invariant
                ctx.body_wf(),
                b == &ctx.body,
                heads == sections(b@, b@.len() as int),
                stexts == section_texts(b@),
                at@.map_values(|i: usize| i as int) == heads,
                strings_view(texts@) == stexts,
                texts@.len() == at@.len(),
                names == strings_view(self.0@),
                forall|j: int| 0 <= j < heads.len() ==> 0 <= #[trigger] heads[j] < b@.len(),
                i <= self.0@.len(),
                section_scan(ctx, slug@, names, i as int).1 == max_line,
                r@.map_values(|m: Message| m@) == r0 + section_scan(ctx, slug@, names, i as int).0,
            decreases self.0@.len() - i,
        {
            let name = self.0[i].as_str();
            let ghost before = r@.map_values(|m: Message| m@);
            match last_with(&texts, name) {
                None => {},
                Some(s) => {
                    assert(heads[s as int] == at@[s as int] as int);
                    let node = &b[at[s]];
                    let cur = max_line;
                    max_line = node.start_line;
                    if max_line < cur {
                        assert(i > 0);
                        let title = concat5("section `", name, "` must come after `", self.0[i - 1].as_str(), "`");
                        assert(node_in_source(ctx, b@[at@[s as int] as int]));
                        let snip = ctx.ast_snippet(node, None, None);
                        let ghost sv = snip@;
                        let m = new_message(ctx.annotation_level(), slug, title, vec1(snip), Vec::new());
                        proof {
                            reveal_strlit("section `");
                            reveal_strlit("` must come after `");
                            reveal_strlit("`");
                            assert(m@.snippets =~= seq![sv]);
                            assert(m@.footers =~= seq![]);
                            assert(names[i - 1] == self.0@[i - 1]@);
                        }
                        r.push(m);
                        assert(r@.map_values(|m: Message| m@) =~= before.push(m@));
                    }
                },
            }
            i += 1;
        }
        proof {
            assert(r@.map_values(|m: Message| m@) =~= self.spec_lint(slug@, ctx));
        }
        r
    }

    /// Node `i` of the body is a level-2 heading whose text is none of the
    /// listed names.
    pub open spec fn unlisted_heading(&self, ctx: &Context, i: int) -> bool {
        let b = ctx.body@;
        &&& 0 <= i < b.len()
        &&& is_section(b, i)
        &&& !(exists|j: int| 0 <= j < self.0@.len() && #[trigger] self.0@[j]@ == heading_text(b, i))
    }

    /// Whether `name` is listed.
    fn lists(&self, name: &str) -> (r: bool)
        ensures
            r == strings_view(self.0@).contains(name@),
    {
        let mut i: usize = 0;
        while i < self.0.len()
            invariant
                i <= self.0@.len(),
                forall|j: int| 0 <= j < i ==> self.0@[j]@ != name@,
            decreases self.0@.len() - i,
        {
            if str_eq(self.0[i].as_str(), name) {
                assert(strings_view(self.0@)[i as int] == name@);
                return true;
            }
            i += 1;
        }
        assert forall|j: int| 0 <= j < strings_view(self.0@).len() implies strings_view(self.0@)[j] != name@ by {
            assert(strings_view(self.0@)[j] == self.0@[j]@);
        }
        false
    }
}

/// The position of the last text equal to `name`.
fn last_with(texts: &Vec<String>, name: &str) -> (r: Option<usize>)
    ensures
        match r {
            Some(s) => s < texts@.len() && last_section(strings_view(texts@), name@, texts@.len() as int) == Some(s as int),
            None => last_section(strings_view(texts@), name@, texts@.len() as int) is None,
        },
{
    let ghost t = strings_view(texts@);
    let mut k: usize = texts.len();
    while k > 0
        invariant
            k <= texts@.len(),
            t == strings_view(texts@),
            last_section(t, name@, texts@.len() as int) == last_section(t, name@, k as int),
        decreases k,
    {
        if str_eq(texts[k - 1].as_str(), name) {
            assert(t[k - 1] == name@);
            return Some(k - 1);
        }
        k -= 1;
    }
    None
}

/// Every level-2 heading is a node of the body.
proof fn lemma_sections_in(b: Seq<Node>, k: int)
    requires
        0 <= k <= b.len(),
    ensures
        forall|j: int| 0 <= j < sections(b, k).len() ==> 0 <= #[trigger] sections(b, k)[j] < k,
    decreases k,
{
    if k > 0 {
        lemma_sections_in(b, k - 1);
        let prev = sections(b, k - 1);
        assert forall|j: int| 0 <= j < sections(b, k).len() implies 0 <= #[trigger] sections(b, k)[j] < k by {
            if j < prev.len() {
                assert(sections(b, k)[j] == prev[j]);
            }
        }
    }
}

/// The level-2 headings among the first `k` nodes are exactly the nodes
/// that `sections` lists.
proof fn lemma_sections_exact(b: Seq<Node>, k: int)
    requires
        0 <= k <= b.len(),
    ensures
        forall|i: int| 0 <= i < k && is_section(b, i) ==> sections(b, k).contains(i),
        forall|j: int|
            0 <= j < sections(b, k).len() ==> 0 <= #[trigger] sections(b, k)[j] < k && is_section(b, sections(b, k)[j]),
    decreases k,
{
    if k > 0 {
        lemma_sections_exact(b, k - 1);
        let prev = sections(b, k - 1);
        let cur = sections(b, k);
        assert forall|i: int| 0 <= i < k && is_section(b, i) implies cur.contains(i) by {
            if i < k - 1 {
                let j = choose|j: int| 0 <= j < prev.len() && prev[j] == i;
                assert(cur[j] == prev[j]);
            } else {
                assert(cur[cur.len() - 1] == k - 1);
            }
        }
        assert forall|j: int| 0 <= j < cur.len() implies 0 <= #[trigger] cur[j] < k && is_section(b, cur[j]) by {
            if j < prev.len() {
                assert(cur[j] == prev[j]);
            }
        }
    }
}

/// The snippets that `unknown_sections` gathers over the first `k` level-2
/// headings are those of the headings whose text is not among `names`.
proof fn lemma_unknown_sections_exact(ctx: &Context, names: Seq<Seq<char>>, k: int)
    requires
        0 <= k <= section_texts(ctx.body@).len(),
    ensures
        forall|j: int|
            0 <= j < k && !names.contains(#[trigger] section_texts(ctx.body@)[j]) ==> unknown_sections(ctx, names, k).contains(
                ast_snippet_spec(ctx, ctx.body@[sections(ctx.body@, ctx.body@.len() as int)[j]], ctx.annotation_level, None),
            ),
        forall|i: int|
            0 <= i < unknown_sections(ctx, names, k).len() ==> exists|j: int|
                0 <= j < k && !names.contains(#[trigger] section_texts(ctx.body@)[j])
                    && #[trigger] unknown_sections(ctx, names, k)[i] == ast_snippet_spec(
                    ctx,
                    ctx.body@[sections(ctx.body@, ctx.body@.len() as int)[j]],
                    ctx.annotation_level,
                    None,
                ),
    decreases k,
{
    if k > 0 {
        lemma_unknown_sections_exact(ctx, names, k - 1);
        let b = ctx.body@;
        let heads = sections(b, b.len() as int);
        let texts = section_texts(b);
        let prev = unknown_sections(ctx, names, k - 1);
        let cur = unknown_sections(ctx, names, k);
        assert forall|j: int|
            0 <= j < k && !names.contains(#[trigger] texts[j]) implies cur.contains(
            ast_snippet_spec(ctx, b[heads[j]], ctx.annotation_level, None),
        ) by {
            if j < k - 1 {
                let i = choose|i: int|
                    0 <= i < prev.len() && prev[i] == ast_snippet_spec(ctx, b[heads[j]], ctx.annotation_level, None);
                assert(cur[i] == prev[i]);
            } else {
                assert(cur[cur.len() - 1] == ast_snippet_spec(ctx, b[heads[j]], ctx.annotation_level, None));
            }
        }
        assert forall|i: int| 0 <= i < cur.len() implies exists|j: int|
            0 <= j < k && !names.contains(#[trigger] texts[j]) && #[trigger] cur[i] == ast_snippet_spec(
                ctx,
                b[heads[j]],
                ctx.annotation_level,
                None,
            ) by {
            if i < prev.len() {
                assert(cur[i] == prev[i]);
                let j = choose|j: int|
                    0 <= j < k - 1 && !names.contains(#[trigger] texts[j]) && prev[i] == ast_snippet_spec(
                        ctx,
                        b[heads[j]],
                        ctx.annotation_level,
                        None,
                    );
                assert(!names.contains(texts[j]));
            } else {
                assert(!names.contains(texts[k - 1]));
            }
        }
    }
}

/// The snippets that `unknown_sections` gathers over the first `k` level-2
/// headings are, in document order, those of the headings whose text is not
/// among `names`.
proof fn lemma_unknown_sections_filter(ctx: &Context, names: Seq<Seq<char>>, k: int)
    requires
        0 <= k <= section_texts(ctx.body@).len(),
    ensures
        unknown_sections(ctx, names, k) == sections(ctx.body@, ctx.body@.len() as int).take(k).filter(
            |i: int| !names.contains(heading_text(ctx.body@, i)),
        ).map_values(|i: int| ast_snippet_spec(ctx, ctx.body@[i], ctx.annotation_level, None)),
    decreases k,
{
    reveal(Seq::filter);
    let b = ctx.body@;
    let heads = sections(b, b.len() as int);
    let pred = |i: int| !names.contains(heading_text(b, i));
    let snip = |i: int| ast_snippet_spec(ctx, b[i], ctx.annotation_level, None);
    if k > 0 {
        lemma_unknown_sections_filter(ctx, names, k - 1);
        let t = heads.take(k);
        assert(t.drop_last() =~= heads.take(k - 1));
        assert(t.last() == heads[k - 1]);
        assert(section_texts(b)[k - 1] == heading_text(b, heads[k - 1]));
        let sub = t.drop_last().filter(pred);
        assert(t.filter(pred) == if pred(t.last()) {
            sub.push(t.last())
        } else {
            sub
        });
        assert(sub.push(t.last()).map_values(snip) =~= sub.map_values(snip).push(snip(t.last())));
    } else {
        assert(heads.take(k) =~= Seq::<int>::empty());
        assert(heads.take(k).filter(pred) =~= Seq::<int>::empty());
        assert(heads.take(k).filter(pred).map_values(snip) =~= Seq::<SnippetView>::empty());
    }
}

/// Every level-2 heading whose text is none of the listed names, whether or
/// not the list is empty, is marked by a snippet of a "body has extra
/// section(s)" message, which comes first and whose snippets mark exactly
/// those headings, in document order; and the message is raised exactly when
/// such a heading exists (otherwise only the messages about the order
/// remain).
pub proof fn law_unlisted_sections_marked(lint: SectionOrder, slug: Seq<char>, ctx: &Context)
    ensures
        ({
            let b = ctx.body@;
            let r = lint.spec_lint(slug, ctx);
            &&& (exists|i: int| #[trigger] lint.unlisted_heading(ctx, i)) ==> {
                &&& r.len() > 0
                &&& r[0].title == "body has extra section(s)"@
                &&& r[0].snippets == sections(b, b.len() as int).filter(
                    |i: int| !(exists|j: int| 0 <= j < lint.0@.len() && #[trigger] lint.0@[j]@ == heading_text(b, i)),
                ).map_values(|i: int| ast_snippet_spec(ctx, b[i], ctx.annotation_level, None))
                &&& forall|i: int|
                    #[trigger] lint.unlisted_heading(ctx, i) ==> r[0].snippets.contains(
                        ast_snippet_spec(ctx, b[i], ctx.annotation_level, None),
                    )
                &&& forall|m: int|
                    0 <= m < r[0].snippets.len() ==> exists|i: int|
                        #[trigger] lint.unlisted_heading(ctx, i) && #[trigger] r[0].snippets[m] == ast_snippet_spec(
                            ctx,
                            b[i],
                            ctx.annotation_level,
                            None,
                        )
            }
            &&& (forall|i: int| !#[trigger] lint.unlisted_heading(ctx, i)) ==> r == section_scan(
                ctx,
                slug,
                strings_view(lint.0@),
                lint.0@.len() as int,
            ).0
        }),
{
    let b = ctx.body@;
    let names = strings_view(lint.0@);
    let heads = sections(b, b.len() as int);
    let texts = section_texts(b);
    let u = unknown_sections(ctx, names, texts.len() as int);
    let r = lint.spec_lint(slug, ctx);
    lemma_sections_exact(b, b.len() as int);
    lemma_unknown_sections_exact(ctx, names, texts.len() as int);
    lemma_unknown_sections_filter(ctx, names, texts.len() as int);
    assert(heads.take(texts.len() as int) =~= heads);
    let by_names = |i: int| !names.contains(heading_text(b, i));
    let by_list = |i: int| !(exists|j: int| 0 <= j < lint.0@.len() && #[trigger] lint.0@[j]@ == heading_text(b, i));
    assert forall|i: int| #[trigger] by_names(i) == by_list(i) by {
        if names.contains(heading_text(b, i)) {
            let q = choose|q: int| 0 <= q < names.len() && names[q] == heading_text(b, i);
            assert(lint.0@[q]@ == heading_text(b, i));
        }
        if !by_list(i) {
            let q = choose|q: int| 0 <= q < lint.0@.len() && #[trigger] lint.0@[q]@ == heading_text(b, i);
            assert(names[q] == heading_text(b, i));
        }
    }
    assert(by_names =~= by_list);
    assert forall|j: int| 0 <= j < texts.len() implies (names.contains(#[trigger] texts[j]) <==> !lint.unlisted_heading(ctx, heads[j])) by {
        assert(texts[j] == heading_text(b, heads[j]));
        if names.contains(texts[j]) {
            let q = choose|q: int| 0 <= q < names.len() && names[q] == texts[j];
            assert(lint.0@[q]@ == heading_text(b, heads[j]));
        }
        if !lint.unlisted_heading(ctx, heads[j]) {
            let q = choose|q: int| 0 <= q < lint.0@.len() && #[trigger] lint.0@[q]@ == heading_text(b, heads[j]);
            assert(names[q] == texts[j]);
        }
    }
    assert forall|i: int| #[trigger] lint.unlisted_heading(ctx, i) implies u.contains(ast_snippet_spec(ctx, b[i], ctx.annotation_level, None)) by {
        let j = choose|j: int| 0 <= j < heads.len() && heads[j] == i;
        assert(!names.contains(texts[j]));
    }
    assert forall|m: int| 0 <= m < u.len() implies exists|i: int|
        #[trigger] lint.unlisted_heading(ctx, i) && #[trigger] u[m] == ast_snippet_spec(ctx, b[i], ctx.annotation_level, None) by {
        let j = choose|j: int|
            0 <= j < texts.len() && !names.contains(#[trigger] texts[j]) && u[m] == ast_snippet_spec(
                ctx,
                b[heads[j]],
                ctx.annotation_level,
                None,
            );
        assert(lint.unlisted_heading(ctx, heads[j]));
    }
    if exists|i: int| #[trigger] lint.unlisted_heading(ctx, i) {
        let i = choose|i: int| #[trigger] lint.unlisted_heading(ctx, i);
        assert(u.contains(ast_snippet_spec(ctx, b[i], ctx.annotation_level, None)));
        assert(u.len() > 0);
    }
    if forall|i: int| !#[trigger] lint.unlisted_heading(ctx, i) {
        if u.len() > 0 {
            let j = choose|j: int|
                0 <= j < texts.len() && !names.contains(#[trigger] texts[j]) && u[0] == ast_snippet_spec(
                    ctx,
                    b[heads[j]],
                    ctx.annotation_level,
                    None,
                );
            assert(lint.unlisted_heading(ctx, heads[j]));
        }
        assert(u.len() == 0);
        assert(r =~= section_scan(ctx, slug, names, names.len() as int).0);
    }
}

/// The line of the last level-2 heading whose text is listed name `k`, when
/// there is one.
pub open spec fn listed_line(ctx: &Context, names: Seq<Seq<char>>, k: int) -> Option<int> {
    let b = ctx.body@;
    let texts = section_texts(b);
    match last_section(texts, names[k], texts.len() as int) {
        Some(s) => Some(b[sections(b, b.len() as int)[s]].start_line as int),
        None => None,
    }
}

/// Among the first `k` listed names, those that have a section have them on
/// lines that do not decrease in the listed order.
pub open spec fn listed_in_order(ctx: &Context, names: Seq<Seq<char>>, k: int) -> bool {
    forall|a: int, c: int|
        0 <= a < c < k && #[trigger] listed_line(ctx, names, a) is Some && #[trigger] listed_line(ctx, names, c) is Some
            ==> listed_line(ctx, names, a)->0 <= listed_line(ctx, names, c)->0
}

/// Walking the first `k` listed names, the scan keeps the line of the last
/// one found (0 before any), and raises a message exactly when the lines of
/// those found are not in order.
proof fn lemma_section_scan_order(ctx: &Context, slug: Seq<char>, names: Seq<Seq<char>>, k: int)
    requires
        0 <= k <= names.len(),
    ensures
        ({
            let s = section_scan(ctx, slug, names, k);
            &&& (exists|a: int| 0 <= a < k && #[trigger] listed_line(ctx, names, a) is Some) ==> exists|a: int|
                0 <= a < k && #[trigger] listed_line(ctx, names, a) == Some(s.1) && forall|c: int|
                    a < c < k ==> #[trigger] listed_line(ctx, names, c) is None
            &&& !(exists|a: int| 0 <= a < k && #[trigger] listed_line(ctx, names, a) is Some) ==> s.1 == 0
            &&& s.0.len() == 0 <==> listed_in_order(ctx, names, k)
            &&& listed_in_order(ctx, names, k) ==> forall|a: int|
                0 <= a < k && #[trigger] listed_line(ctx, names, a) is Some ==> listed_line(ctx, names, a)->0 <= s.1
            &&& s.1 >= 0
        }),
    decreases k,
{
    if k > 0 {
        lemma_section_scan_order(ctx, slug, names, k - 1);
        let p = section_scan(ctx, slug, names, k - 1);
        let s = section_scan(ctx, slug, names, k);
        let last = k - 1;
        let b = ctx.body@;
        let texts = section_texts(b);
        match last_section(texts, names[last], texts.len() as int) {
            None => {
                assert(s == p);
                assert(listed_line(ctx, names, last) is None);
                assert(listed_in_order(ctx, names, k) == listed_in_order(ctx, names, last)) by {
                    if listed_in_order(ctx, names, last) {
                        assert forall|a: int, c: int|
                            0 <= a < c < k && #[trigger] listed_line(ctx, names, a) is Some
                                && #[trigger] listed_line(ctx, names, c) is Some implies listed_line(ctx, names, a)->0
                            <= listed_line(ctx, names, c)->0 by {
                            assert(c < last);
                        }
                    }
                }
            },
            Some(sec) => {
                let line = b[sections(b, b.len() as int)[sec]].start_line as int;
                assert(listed_line(ctx, names, last) == Some(line));
                assert(s.1 == line);
                if line >= p.1 {
                    assert(s.0 == p.0);
                    if listed_in_order(ctx, names, last) {
                        assert forall|a: int, c: int|
                            0 <= a < c < k && #[trigger] listed_line(ctx, names, a) is Some
                                && #[trigger] listed_line(ctx, names, c) is Some implies listed_line(ctx, names, a)->0
                            <= listed_line(ctx, names, c)->0 by {
                            if c == last {
                                assert(listed_line(ctx, names, a)->0 <= p.1);
                            }
                        }
                    } else {
                        let (a, c) = choose|a: int, c: int|
                            !(0 <= a < c < last && #[trigger] listed_line(ctx, names, a) is Some
                                && #[trigger] listed_line(ctx, names, c) is Some ==> listed_line(ctx, names, a)->0
                            <= listed_line(ctx, names, c)->0);
                        assert(!listed_in_order(ctx, names, k));
                    }
                } else {
                    assert(s.0.len() == p.0.len() + 1);
                    let a = choose|a: int|
                        0 <= a < last && #[trigger] listed_line(ctx, names, a) == Some(p.1) && forall|c: int|
                            a < c < last ==> #[trigger] listed_line(ctx, names, c) is None;
                    assert(listed_line(ctx, names, a) is Some);
                    assert(!listed_in_order(ctx, names, k));
                }
                assert(exists|a: int| 0 <= a < k && #[trigger] listed_line(ctx, names, a) == Some(s.1) && forall|c: int|
                    a < c < k ==> #[trigger] listed_line(ctx, names, c) is None) by {
                    assert(listed_line(ctx, names, last) == Some(s.1));
                }
            },
        }
    }
}

/// Some level-2 heading has a text that is not listed exactly when the
/// gathered snippets of unlisted sections are not empty.
proof fn lemma_unlisted_iff(lint: SectionOrder, ctx: &Context)
    ensures
        ({
            let b = ctx.body@;
            (exists|i: int| #[trigger] lint.unlisted_heading(ctx, i)) <==> unknown_sections(
                ctx,
                strings_view(lint.0@),
                section_texts(b).len() as int,
            ).len() > 0
        }),
{
    let b = ctx.body@;
    let names = strings_view(lint.0@);
    let heads = sections(b, b.len() as int);
    let texts = section_texts(b);
    let u = unknown_sections(ctx, names, texts.len() as int);
    lemma_sections_exact(b, b.len() as int);
    lemma_unknown_sections_exact(ctx, names, texts.len() as int);
    if exists|i: int| #[trigger] lint.unlisted_heading(ctx, i) {
        let i = choose|i: int| #[trigger] lint.unlisted_heading(ctx, i);
        let j = choose|j: int| 0 <= j < heads.len() && heads[j] == i;
        assert(texts[j] == heading_text(b, i));
        if names.contains(texts[j]) {
            let q = choose|q: int| 0 <= q < names.len() && names[q] == texts[j];
            assert(lint.0@[q]@ == heading_text(b, i));
        }
        assert(u.contains(ast_snippet_spec(ctx, b[heads[j]], ctx.annotation_level, None)));
    }
    if u.len() > 0 {
        let j = choose|j: int|
            0 <= j < texts.len() && !names.contains(#[trigger] texts[j]) && u[0] == ast_snippet_spec(
                ctx,
                b[heads[j]],
                ctx.annotation_level,
                None,
            );
        assert(texts[j] == heading_text(b, heads[j]));
        if !lint.unlisted_heading(ctx, heads[j]) {
            let q = choose|q: int| 0 <= q < lint.0@.len() && #[trigger] lint.0@[q]@ == heading_text(b, heads[j]);
            assert(names[q] == texts[j]);
        }
        assert(lint.unlisted_heading(ctx, heads[j]));
    }
}

/// Besides the message about extra sections, the lint reports something
/// exactly when the listed sections that the body has are out of order: when
/// the line of one (its last heading) comes before the line of one listed
/// before it.
pub proof fn law_sections_reported_out_of_order(lint: SectionOrder, slug: Seq<char>, ctx: &Context)
    ensures
        ({
            let b = ctx.body@;
            let r = lint.spec_lint(slug, ctx);
            let extra = if exists|i: int| #[trigger] lint.unlisted_heading(ctx, i) {
                1int
            } else {
                0int
            };
            r.len() == extra <==> listed_in_order(ctx, strings_view(lint.0@), lint.0@.len() as int)
        }),
{
    let names = strings_view(lint.0@);
    lemma_section_scan_order(ctx, slug, names, names.len() as int);
    lemma_unlisted_iff(lint, ctx);
    let u = unknown_sections(ctx, names, section_texts(ctx.body@).len() as int);
    assert(lint.spec_lint(slug, ctx).len() == (if u.len() == 0 { 0int } else { 1int }) + section_scan(ctx, slug, names, names.len() as int).0.len());
}

} // verus!
