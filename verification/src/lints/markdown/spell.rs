//! Misspelled words, located in the body.
//!
//! Which words are misspelled is decided by a spelling dictionary; the
//! library takes the words it flags, keeps each once (leaving out numbers
//! and punctuation), and reports where each word appears.

use vstd::prelude::*;

use crate::lints::markdown::link_first::first_offset;
use crate::lints::markdown::{lemma_source_for_text_blen, line_spec, node_in_source, source_for_text_spec};
use crate::lints::{lint_message, new_message, result_view, strings_view, vec1, Context, Error};
use crate::collate::{insert_sorted, strictly_sorted};
use crate::pattern::{any_matches, compile_set, regex_set_compiles, regex_set_error, set_is_match};
use crate::pattern::{compile, escape, escaped, find, is_match_of, regex_compiles, regex_error, regex_first, Pattern};
use crate::search::{match_spans, occurrence_span, occurrences};
use crate::snippets::{footer, span, AnnotationView, FooterView, Level, Message, MessageView, SnippetView};
use crate::text::{blen, concat3};
use crate::tree::{Node, NodeKind};

verus! {

/// The spelling lint, with the words of a personal dictionary.
#[derive(Debug, Clone)]
pub struct Spell {
    pub personal_dictionary: String,
}

/// A misspelled word: the word, whether it was reported, and the pattern
/// that finds it as a whole word.
pub struct Mistake {
    pub misspelling: String,
    pub reported: bool,
    pub pattern: Pattern,
}

/// The pattern that finds `word` as a whole word.
pub open spec fn word_pattern(word: Seq<char>) -> Seq<char> {
    "\\b"@ + escaped(word) + "\\b"@
}

impl Mistake {
    pub open spec fn pattern_view(&self) -> Seq<char> {
        self.pattern@
    }

    /// A mistake not yet reported, or the error when the word's pattern
    /// does not compile.
    pub fn new(misspelling: &str) -> (r: Result<Mistake, String>)
        ensures
            r is Ok <==> regex_compiles(word_pattern(misspelling@)),
            r matches Ok(m) ==> m.misspelling@ == misspelling@ && !m.reported && m.pattern_view() == word_pattern(misspelling@),
            r matches Err(e) ==> e@ == regex_error(word_pattern(misspelling@)),
    {
        let esc = escape(misspelling);
        let p = concat3("\\b", esc.as_str(), "\\b");
        proof {
            reveal_strlit("\\b");
        }
        match compile(p.as_str()) {
            Ok(pattern) => Ok(Mistake { misspelling: String::from_str(misspelling), reported: false, pattern }),
            Err(e) => Err(e),
        }
    }
}

/// The first word among the first `k` whose pattern does not compile.
pub open spec fn first_bad(words: Seq<Seq<char>>, k: int) -> Option<int>
    decreases k,
{
    if k <= 0 {
        None
    } else {
        match first_bad(words, k - 1) {
            Some(j) => Some(j),
            None => if regex_compiles(word_pattern(words[k - 1])) { None } else { Some(k - 1) },
        }
    }
}

/// The message, if any, for word `w` in text `t` of node `n`: the first
/// whole-word match, marked in the lines that show the text (placed after
/// the first occurrence of the text in them).
pub open spec fn hit(ctx: &Context, slug: Seq<char>, n: Node, t: Seq<char>, w: Seq<char>) -> Option<MessageView> {
    match regex_first(word_pattern(w), t) {
        None => None,
        Some(m) => {
            let source = source_for_text_spec(ctx, n.start_line as int, t);
            match first_offset(source, t) {
                None => None,
                Some(off) => Some(
                    lint_message(
                        ctx.annotation_level,
                        slug,
                        "the word `"@ + w + "` is misspelled"@,
                        seq![
                            SnippetView {
                                source,
                                line_start: n.start_line as int,
                                origin: ctx.origin_view(),
                                fold: false,
                                annotations: seq![
                                    AnnotationView {
                                        level: ctx.annotation_level,
                                        start: m.start + off,
                                        end: m.start + off + blen(w),
                                        label: Some("incorrectly spelled"@),
                                    },
                                ],
                            },
                        ],
                        seq![],
                    ),
                ),
            }
        },
    }
}

/// The text a node is checked in, if it is text.
pub open spec fn spell_text(n: Node) -> Option<Seq<char>> {
    match n.value {
        NodeKind::Text(t) => Some(t@),
        _ => None,
    }
}

/// The messages for the first `k` words in node `n`.
pub open spec fn node_hits(ctx: &Context, slug: Seq<char>, n: Node, words: Seq<Seq<char>>, k: int) -> Seq<MessageView>
    decreases k,
{
    if k <= 0 {
        seq![]
    } else {
        let prev = node_hits(ctx, slug, n, words, k - 1);
        match spell_text(n) {
            Some(t) => match hit(ctx, slug, n, t, words[k - 1]) {
                Some(m) => prev.push(m),
                None => prev,
            },
            None => prev,
        }
    }
}

/// The messages for the words in the first `i` nodes.
pub open spec fn body_hits(ctx: &Context, slug: Seq<char>, words: Seq<Seq<char>>, i: int) -> Seq<MessageView>
    decreases i,
{
    if i <= 0 {
        seq![]
    } else {
        body_hits(ctx, slug, words, i - 1) + node_hits(ctx, slug, ctx.body@[i - 1], words, words.len() as int)
    }
}

/// Word `w` is found in node `n`.
pub open spec fn hit_in(ctx: &Context, slug: Seq<char>, n: Node, w: Seq<char>) -> bool {
    match spell_text(n) {
        Some(t) => hit(ctx, slug, n, t, w) is Some,
        None => false,
    }
}

/// Word `w` was found in one of the first `i` nodes.
pub open spec fn found_in(ctx: &Context, slug: Seq<char>, w: Seq<char>, i: int) -> bool {
    exists|j: int| 0 <= j < i && #[trigger] hit_in(ctx, slug, ctx.body@[j], w)
}

/// The messages for the first `k` words found nowhere: each shows the
/// first line of the body.
pub open spec fn fallback(ctx: &Context, slug: Seq<char>, words: Seq<Seq<char>>, k: int) -> Seq<MessageView>
    decreases k,
{
    if k <= 0 {
        seq![]
    } else {
        let prev = fallback(ctx, slug, words, k - 1);
        if found_in(ctx, slug, words[k - 1], ctx.body@.len() as int) {
            prev
        } else {
            let line = ctx.body@[0].start_line as int;
            prev.push(
                lint_message(
                    ctx.annotation_level,
                    slug,
                    "the word `"@ + words[k - 1] + "` is misspelled"@,
                    seq![
                        SnippetView {
                            source: line_spec(ctx, line),
                            line_start: line,
                            origin: ctx.origin_view(),
                            fold: false,
                            annotations: seq![],
                        },
                    ],
                    seq![FooterView { level: Level::Warning, title: "could not find a line number for this message"@ }],
                ),
            )
        }
    }
}

impl Spell {
    /// For misspelled `words`: an error when a word's pattern does not
    /// compile; otherwise, for each text node in order and each word in
    /// order, a message marking the word's first whole-word match; then a
    /// message for each word found nowhere.
    pub open spec fn spec_report(&self, slug: Seq<char>, ctx: &Context, words: Seq<Seq<char>>) -> Result<Seq<MessageView>, Seq<char>> {
        match first_bad(words, words.len() as int) {
            Some(j) => Err(regex_error(word_pattern(words[j]))),
            None => Ok(body_hits(ctx, slug, words, ctx.body@.len() as int) + fallback(ctx, slug, words, words.len() as int)),
        }
    }

    /// Reports the misspelled `words`.
    pub fn report(&self, slug: &str, ctx: &Context, words: &Vec<String>) -> (r: Result<Vec<Message>, Error>)
        requires
            ctx.body_wf(),
            forall|k: int| 0 <= k < words@.len() ==> blen(#[trigger] words@[k]@) <= crate::preamble::text_bound(),
        ensures
            result_view(r) == self.spec_report(slug@, ctx, strings_view(words@)),
    {
        let ghost ws = strings_view(words@);
        let mut mistakes: Vec<Mistake> = Vec::new();
        let mut k: usize = 0;
        while k < words.len()
            invariant
                ws == strings_view(words@),
                k <= words@.len(),
                first_bad(ws, k as int) is None,
                mistakes@.len() == k,
                forall|j: int| 0 <= j < k ==> (#[trigger] mistakes@[j]).pattern_view() == word_pattern(ws[j]) && mistakes@[j].misspelling@ == ws[j],
                forall|j: int| 0 <= j < k ==> !(#[trigger] mistakes@[j]).reported,
            decreases words@.len() - k,
        {
            assert(ws[k as int] == words@[k as int]@);
            match Mistake::new(words[k].as_str()) {
                Ok(m) => mistakes.push(m),
                Err(message) => {
                    proof {
                        lemma_first_bad_stays(ws, k + 1, ws.len() as int);
                    }
                    return Err(Error::Custom { message });
                },
            }
            k += 1;
        }
        let mut msgs: Vec<Message> = Vec::new();
        let mut i: usize = 0;
        while i < ctx.body.len()
            invariant
                ctx.body_wf(),
                ws == strings_view(words@),
                forall|k: int| 0 <= k < words@.len() ==> blen(#[trigger] words@[k]@) <= crate::preamble::text_bound(),
                mistakes@.len() == ws.len(),
                forall|j: int| 0 <= j < ws.len() ==> (#[trigger] mistakes@[j]).pattern_view() == word_pattern(ws[j]) && mistakes@[j].misspelling@ == ws[j],
                forall|j: int| 0 <= j < ws.len() ==> (#[trigger] mistakes@[j]).reported == found_in(ctx, slug@, ws[j], i as int),
                i <= ctx.body@.len(),
                msgs@.map_values(|m: Message| m@) == body_hits(ctx, slug@, ws, i as int),
            decreases ctx.body@.len() - i,
        {
            let n = &ctx.body[i];
            assert(node_in_source(ctx, ctx.body@[i as int]));
            let ghost before = msgs@.map_values(|m: Message| m@);
            let ghost old_mistakes = mistakes@;
            self.node_report(slug, ctx, n, Ghost(i as int), Ghost(ws), &mut mistakes, &mut msgs);
            proof {
                assert forall|j: int| 0 <= j < ws.len() implies (#[trigger] mistakes@[j]).reported == found_in(ctx, slug@, ws[j], i + 1) by {
                    if found_in(ctx, slug@, ws[j], i as int) {
                        let w = choose|w: int| 0 <= w < i && #[trigger] hit_in(ctx, slug@, ctx.body@[w], ws[j]);
                        assert(0 <= w < i + 1 && hit_in(ctx, slug@, ctx.body@[w], ws[j]));
                    }
                    if hit_in(ctx, slug@, ctx.body@[i as int], ws[j]) {
                        assert(0 <= i < i + 1 && hit_in(ctx, slug@, ctx.body@[i as int], ws[j]));
                    }
                    if found_in(ctx, slug@, ws[j], i + 1) && !found_in(ctx, slug@, ws[j], i as int) {
                        let w = choose|w: int| 0 <= w < i + 1 && #[trigger] hit_in(ctx, slug@, ctx.body@[w], ws[j]);
                        assert(w == i);
                    }
                }
            }
            i += 1;
        }
        let mut k: usize = 0;
        let ghost hits = msgs@.map_values(|m: Message| m@);
        while k < mistakes.len()
            invariant
                ctx.body_wf(),
                ws == strings_view(words@),
                mistakes@.len() == ws.len(),
                forall|j: int| 0 <= j < ws.len() ==> (#[trigger] mistakes@[j]).misspelling@ == ws[j],
                forall|j: int|
                    0 <= j < ws.len() ==> (#[trigger] mistakes@[j]).reported == found_in(ctx, slug@, ws[j], ctx.body@.len() as int),
                k <= mistakes@.len(),
                msgs@.map_values(|m: Message| m@) == hits + fallback(ctx, slug@, ws, k as int),
            decreases mistakes@.len() - k,
        {
            if !mistakes[k].reported {
                let m = self.fallback_message(slug, ctx, mistakes[k].misspelling.as_str());
                let ghost before = msgs@.map_values(|m: Message| m@);
                msgs.push(m);
                assert(msgs@.map_values(|m: Message| m@) =~= before.push(m@));
                assert(hits + fallback(ctx, slug@, ws, k + 1) =~= (hits + fallback(ctx, slug@, ws, k as int)).push(m@));
            } else {
                assert(fallback(ctx, slug@, ws, k + 1) == fallback(ctx, slug@, ws, k as int));
            }
            k += 1;
        }
        Ok(msgs)
    }

    /// The messages for the words in node `n` (node `i`), marking each word
    /// found there as reported.
    fn node_report(
        &self,
        slug: &str,
        ctx: &Context,
        n: &Node,
        i: Ghost<int>,
        ws: Ghost<Seq<Seq<char>>>,
        mistakes: &mut Vec<Mistake>,
        msgs: &mut Vec<Message>,
    )
        requires
            ctx.body_wf(),
            0 <= i@ < ctx.body@.len(),
            *n == ctx.body@[i@],
            node_in_source(ctx, *n),
            forall|k: int| 0 <= k < ws@.len() ==> blen(#[trigger] ws@[k]) <= crate::preamble::text_bound(),
            old(mistakes)@.len() == ws@.len(),
            forall|j: int|
                0 <= j < ws@.len() ==> (#[trigger] old(mistakes)@[j]).pattern_view() == word_pattern(ws@[j])
                    && old(mistakes)@[j].misspelling@ == ws@[j],
        ensures
            final(mistakes)@.len() == ws@.len(),
            forall|j: int|
                0 <= j < ws@.len() ==> (#[trigger] final(mistakes)@[j]).pattern_view() == word_pattern(ws@[j])
                    && final(mistakes)@[j].misspelling@ == ws@[j],
            forall|j: int|
                0 <= j < ws@.len() ==> (#[trigger] final(mistakes)@[j]).reported == (old(mistakes)@[j].reported || hit_in(
                    ctx,
                    slug@,
                    *n,
                    ws@[j],
                )),
            final(msgs)@.map_values(|m: Message| m@) == old(msgs)@.map_values(|m: Message| m@) + node_hits(
                ctx,
                slug@,
                *n,
                ws@,
                ws@.len() as int,
            ),
    {
        let ghost start = msgs@.map_values(|m: Message| m@);
        let ghost orig = mistakes@;
        let t = match &n.value {
            NodeKind::Text(t) => t,
            _ => {
                proof {
                    lemma_node_hits_empty(ctx, slug@, *n, ws@, ws@.len() as int);
                }
                assert(msgs@.map_values(|m: Message| m@) =~= start + Seq::<MessageView>::empty());
                return;
            },
        };
        let source = ctx.source_for_text(n.start_line, t.as_str());
        proof {
            lemma_source_for_text_blen(ctx, n.start_line as int, t@);
        }
        let spans = match_spans(source.as_str(), t.as_str());
        let offset: Option<usize> = if spans.len() > 0 { Some(spans[0].0) } else { None };
        proof {
            let o = occurrences(source@, t@, 0);
            assert(spans@.map_values(|p: (usize, usize)| (p.0 as int, p.1 as int)).len() == o.map_values(|k: int| occurrence_span(source@, t@, k)).len());
            if spans@.len() > 0 {
                assert(spans@.map_values(|p: (usize, usize)| (p.0 as int, p.1 as int))[0] == o.map_values(|k: int| occurrence_span(source@, t@, k))[0]);
                crate::search::lemma_occurrences_in(source@, t@, 0);
                crate::text::lemma_blen_take_mono(source@, o[0], source@.len() as int);
                assert(source@.take(source@.len() as int) =~= source@);
            }
            assert(first_offset(source@, t@) == match offset { Some(v) => Some(v as int), None => None::<int> });
        }
        let mut k: usize = 0;
        while k < mistakes.len()
            invariant
                ctx.body_wf(),
                node_in_source(ctx, *n),
                n.value == NodeKind::Text(*t),
                source@ == source_for_text_spec(ctx, n.start_line as int, t@),
                blen(t@) <= crate::preamble::text_bound(),
                first_offset(source@, t@) == match offset { Some(v) => Some(v as int), None => None::<int> },
                offset matches Some(v) ==> v <= crate::preamble::text_bound(),
                forall|k: int| 0 <= k < ws@.len() ==> blen(#[trigger] ws@[k]) <= crate::preamble::text_bound(),
                mistakes@.len() == ws@.len(),
                orig.len() == ws@.len(),
                forall|j: int|
                    0 <= j < ws@.len() ==> (#[trigger] mistakes@[j]).pattern_view() == word_pattern(ws@[j])
                        && mistakes@[j].misspelling@ == ws@[j],
                forall|j: int| 0 <= j < ws@.len() ==> (#[trigger] orig[j]).pattern_view() == word_pattern(ws@[j]),
                forall|j: int|
                    0 <= j < k ==> (#[trigger] mistakes@[j]).reported == (orig[j].reported || hit(ctx, slug@, *n, t@, ws@[j]) is Some),
                forall|j: int| k <= j < ws@.len() ==> (#[trigger] mistakes@[j]).reported == orig[j].reported,
                k <= mistakes@.len(),
                msgs@.map_values(|m: Message| m@) == start + node_hits(ctx, slug@, *n, ws@, k as int),
            decreases mistakes@.len() - k,
        {
            let found = find(&mistakes[k].pattern, t.as_str());
            let ghost before = msgs@.map_values(|m: Message| m@);
            let mut did = false;
            if let Some(c) = found {
                if let Some(off) = offset {
                    proof {
                        assert(is_match_of(c@, t@));
                        let (a, b) = choose|a: int, b: int|
                            0 <= a <= b <= t@.len() && #[trigger] blen(t@.take(a)) == c@.start
                                && #[trigger] blen(t@.take(b)) == c@.end && c@.text == t@.subrange(a, b);
                        crate::text::lemma_blen_take_mono(t@, a, t@.len() as int);
                        assert(t@.take(t@.len() as int) =~= t@);
                        assert(blen(ws@[k as int]) <= crate::preamble::text_bound());
                    }
                    let m = self.hit_message(slug, ctx, n, source.as_str(), c.start + off, mistakes[k].misspelling.as_str());
                    msgs.push(m);
                    did = true;
                    assert(msgs@.map_values(|m: Message| m@) =~= before.push(m@));
                }
            }
            if did {
                let mut taken = mistakes.remove(k);
                taken.reported = true;
                mistakes.insert(k, taken);
            }
            assert(mistakes@[k as int].reported == (orig[k as int].reported || hit(ctx, slug@, *n, t@, ws@[k as int]) is Some));
            k += 1;
        }
    }

    /// The message for a word found at byte `start` of `source`.
    fn hit_message(&self, slug: &str, ctx: &Context, n: &Node, source: &str, start: usize, w: &str) -> (r: Message)
        requires
            start <= 3 * crate::preamble::text_bound(),
            blen(w@) <= crate::preamble::text_bound(),
        ensures
            r@ == lint_message(
                ctx.annotation_level,
                slug@,
                "the word `"@ + w@ + "` is misspelled"@,
                seq![
                    SnippetView {
                        source: source@,
                        line_start: n.start_line as int,
                        origin: ctx.origin_view(),
                        fold: false,
                        annotations: seq![
                            AnnotationView {
                                level: ctx.annotation_level,
                                start: start as int,
                                end: start + blen(w@),
                                label: Some("incorrectly spelled"@),
                            },
                        ],
                    },
                ],
                seq![],
            ),
    {
        let len = crate::text::str_byte_len(w);
        let ann = span(ctx.annotation_level(), start, start + len, Some(String::from_str("incorrectly spelled")));
        let ghost av = ann@;
        let snip = crate::snippets::snippet(source, n.start_line, ctx.origin(), false, vec1(ann));
        let title = concat3("the word `", w, "` is misspelled");
        proof {
            reveal_strlit("incorrectly spelled");
            reveal_strlit("the word `");
            reveal_strlit("` is misspelled");
            assert(snip@.annotations =~= seq![av]);
        }
        crate::lints::message_one(ctx.annotation_level(), slug, title, snip)
    }

    /// The message for a word found nowhere.
    fn fallback_message(&self, slug: &str, ctx: &Context, w: &str) -> (r: Message)
        requires
            ctx.body_wf(),
        ensures
            r@ == ({
                let line = ctx.body@[0].start_line as int;
                lint_message(
                    ctx.annotation_level,
                    slug@,
                    "the word `"@ + w@ + "` is misspelled"@,
                    seq![
                        SnippetView {
                            source: line_spec(ctx, line),
                            line_start: line,
                            origin: ctx.origin_view(),
                            fold: false,
                            annotations: seq![],
                        },
                    ],
                    seq![FooterView { level: Level::Warning, title: "could not find a line number for this message"@ }],
                )
            }),
    {
        assert(node_in_source(ctx, ctx.body@[0]));
        let line = ctx.body[0].start_line;
        let source = ctx.line(line);
        let snip = crate::snippets::snippet(source.as_str(), line, ctx.origin(), false, Vec::new());
        assert(snip@.annotations =~= seq![]);
        let ghost sv = snip@;
        let foot = footer(Level::Warning, String::from_str("could not find a line number for this message"));
        let ghost fv = foot@;
        let title = concat3("the word `", w, "` is misspelled");
        let m = new_message(ctx.annotation_level(), slug, title, vec1(snip), vec1(foot));
        proof {
            reveal_strlit("could not find a line number for this message");
            reveal_strlit("the word `");
            reveal_strlit("` is misspelled");
            assert(m@.snippets =~= seq![sv]);
            assert(m@.footers =~= seq![fv]);
        }
        m
    }
}

/// Once a word's pattern fails, the first failing word stays the same.
proof fn lemma_first_bad_stays(words: Seq<Seq<char>>, k: int, m: int)
    requires
        0 <= k <= m,
        first_bad(words, k) is Some,
    ensures
        first_bad(words, m) == first_bad(words, k),
    decreases m - k,
{
    if k < m {
        lemma_first_bad_stays(words, k, m - 1);
    }
}

/// A node that is not text has no messages.
proof fn lemma_node_hits_empty(ctx: &Context, slug: Seq<char>, n: Node, words: Seq<Seq<char>>, k: int)
    requires
        spell_text(n) is None,
    ensures
        node_hits(ctx, slug, n, words, k) == Seq::<MessageView>::empty(),
    decreases k,
{
    if k > 0 {
        lemma_node_hits_empty(ctx, slug, n, words, k - 1);
    }
}


/// The patterns of the words that are never reported: hexadecimal numbers
/// and runs of punctuation.
pub open spec fn allow_patterns() -> Seq<Seq<char>> {
    seq!["^(0x)?[[:xdigit:]]+$"@, "^[[:punct:]]+$"@]
}

/// The words to report among those the dictionary flags: each once, in
/// sorted order, leaving out those that an allow pattern matches; the
/// error when the allow patterns do not compile.
pub fn misspelled(flagged: &Vec<String>) -> (r: Result<Vec<String>, String>)
    ensures
        r is Ok <==> regex_set_compiles(allow_patterns()),
        r matches Err(e) ==> e@ == regex_set_error(allow_patterns()),
        r matches Ok(v) ==> strictly_sorted(strings_view(v@)),
        r matches Ok(v) ==> forall|w: Seq<char>|
            #![trigger strings_view(v@).contains(w)]
            strings_view(v@).contains(w) <==> (strings_view(flagged@).contains(w) && !any_matches(allow_patterns(), w)),
{
    let patterns = vec![String::from_str("^(0x)?[[:xdigit:]]+$"), String::from_str("^[[:punct:]]+$")];
    assert(strings_view(patterns@) =~= allow_patterns());
    let allow = match compile_set(&patterns) {
        Ok(p) => p,
        Err(e) => return Err(e),
    };
    let ghost fv = strings_view(flagged@);
    let mut out: Vec<String> = Vec::new();
    let mut i: usize = 0;
    while i < flagged.len()
        invariant
            i <= flagged@.len(),
            fv == strings_view(flagged@),
            allow@ == allow_patterns(),
            strictly_sorted(strings_view(out@)),
            forall|w: Seq<char>|
                #![trigger strings_view(out@).contains(w)]
                #![trigger fv.take(i as int).contains(w)]
                strings_view(out@).contains(w) <==> (fv.take(i as int).contains(w) && !any_matches(allow_patterns(), w)),
        decreases flagged@.len() - i,
    {
        let ghost before = strings_view(out@);
        let w = &flagged[i];
        assert(fv[i as int] == w@);
        let skip = set_is_match(&allow, w.as_str());
        if !skip {
            let c = w.clone();
            assert(c@ == w@);
            insert_sorted(&mut out, c);
        }
        proof {
            let t1 = fv.take(i + 1);
            let t0 = fv.take(i as int);
            assert(t1 =~= t0.push(w@));
            assert forall|x: Seq<char>|
                strings_view(out@).contains(x) <==> (t1.contains(x) && !any_matches(allow_patterns(), x)) by {
                assert(before.contains(x) == (t0.contains(x) && !any_matches(allow_patterns(), x)));
                if t1.contains(x) && x != w@ {
                    let k = choose|k: int| 0 <= k < t1.len() && #[trigger] t1[k] == x;
                    assert(k < t0.len());
                    assert(t0[k] == x);
                }
                if t0.contains(x) {
                    let k = choose|k: int| 0 <= k < t0.len() && #[trigger] t0[k] == x;
                    assert(t1[k] == x);
                }
                assert(t1[i as int] == w@);
                if !skip {
                    assert(strings_view(out@).to_set().contains(x) == before.to_set().insert(w@).contains(x));
                }
            }
        }
        i += 1;
    }
    assert(fv.take(fv.len() as int) =~= fv);
    assert forall|x: Seq<char>|
        strings_view(out@).contains(x) <==> (fv.contains(x) && !any_matches(allow_patterns(), x)) by {
        assert(strings_view(out@).contains(x) == (fv.take(i as int).contains(x) && !any_matches(allow_patterns(), x)));
    }
    Ok(out)
}


/// The words to report among those the dictionary flags, in sorted order:
/// each once, leaving out those that an allow pattern matches.
pub open spec fn reported_words(flagged: Seq<Seq<char>>) -> Seq<Seq<char>> {
    crate::collate::sorted_of(flagged.to_set().filter(|w: Seq<char>| !any_matches(allow_patterns(), w)))
}

impl Spell {
    /// Reports the words the dictionary flags: each once, in sorted order,
    /// leaving out numbers and punctuation (see `misspelled`), as `report`
    /// does; the error when the allow patterns do not compile.
    pub fn lint_flagged(&self, slug: &str, ctx: &Context, flagged: &Vec<String>) -> (r: Result<Vec<Message>, Error>)
        requires
            ctx.body_wf(),
            forall|k: int| 0 <= k < flagged@.len() ==> blen(#[trigger] flagged@[k]@) <= crate::preamble::text_bound(),
        ensures
            regex_set_compiles(allow_patterns()) ==> result_view(r) == self.spec_report(slug@, ctx, reported_words(strings_view(flagged@))),
            !regex_set_compiles(allow_patterns()) ==> result_view(r) == Err::<Seq<MessageView>, Seq<char>>(regex_set_error(allow_patterns())),
    {
        let ghost fv = strings_view(flagged@);
        let res = misspelled(flagged);
        let words = match res {
            Ok(v) => v,
            Err(message) => return Err(Error::Custom { message }),
        };
        assert(res == Ok::<Vec<String>, String>(words));
        proof {
            let wv = strings_view(words@);
            let set = fv.to_set().filter(|w: Seq<char>| !any_matches(allow_patterns(), w));
            assert forall|x: Seq<char>| wv.to_set().contains(x) == set.contains(x) by {
                assert(wv.contains(x) == (fv.contains(x) && !any_matches(allow_patterns(), x)));
            }
            assert(wv.to_set() =~= set);
            crate::collate::lemma_sorted_of(wv);
            assert forall|k: int| 0 <= k < words@.len() implies blen(#[trigger] words@[k]@) <= crate::preamble::text_bound() by {
                assert(wv[k] == words@[k]@);
                assert(wv.contains(wv[k]));
                assert(wv.contains(wv[k]) == (fv.contains(wv[k]) && !any_matches(allow_patterns(), wv[k])));
                let j = choose|j: int| 0 <= j < fv.len() && fv[j] == wv[k];
                assert(fv[j] == flagged@[j]@);
            }
        }
        self.report(slug, ctx, &words)
    }
}

/// The messages for the words found in node `n`, word by word.
pub open spec fn hits_of_node(ctx: &Context, slug: Seq<char>, n: Node, words: Seq<Seq<char>>) -> Seq<MessageView> {
    Seq::new(words.len(), |k: int| k).filter(|k: int| hit_in(ctx, slug, n, words[k])).map_values(
        |k: int| hit(ctx, slug, n, spell_text(n)->0, words[k])->0,
    )
}

/// The message for word `w`, found nowhere: it shows the first line of the
/// body.
pub open spec fn unfound_message(ctx: &Context, slug: Seq<char>, w: Seq<char>) -> MessageView {
    let line = ctx.body@[0].start_line as int;
    lint_message(
        ctx.annotation_level,
        slug,
        "the word `"@ + w + "` is misspelled"@,
        seq![
            SnippetView {
                source: line_spec(ctx, line),
                line_start: line,
                origin: ctx.origin_view(),
                fold: false,
                annotations: seq![],
            },
        ],
        seq![FooterView { level: Level::Warning, title: "could not find a line number for this message"@ }],
    )
}

/// The messages for the first `k` words in node `n` are, in order, those
/// of the words found in it.
proof fn lemma_node_hits_filter(ctx: &Context, slug: Seq<char>, n: Node, words: Seq<Seq<char>>, k: int)
    requires
        0 <= k <= words.len(),
    ensures
        node_hits(ctx, slug, n, words, k) == Seq::new(k as nat, |m: int| m).filter(
            |m: int| hit_in(ctx, slug, n, words[m]),
        ).map_values(|m: int| hit(ctx, slug, n, spell_text(n)->0, words[m])->0),
    decreases k,
{
    reveal(Seq::filter);
    let pred = |m: int| hit_in(ctx, slug, n, words[m]);
    let msg = |m: int| hit(ctx, slug, n, spell_text(n)->0, words[m])->0;
    let t = Seq::new(k as nat, |m: int| m);
    if k > 0 {
        lemma_node_hits_filter(ctx, slug, n, words, k - 1);
        assert(t.drop_last() =~= Seq::new((k - 1) as nat, |m: int| m));
        assert(t.last() == k - 1);
        let sub = t.drop_last().filter(pred);
        assert(t.filter(pred) == if pred(t.last()) {
            sub.push(t.last())
        } else {
            sub
        });
        assert(sub.push(t.last()).map_values(msg) =~= sub.map_values(msg).push(msg(t.last())));
    } else {
        assert(t =~= Seq::<int>::empty());
        assert(t.filter(pred) =~= Seq::<int>::empty());
        assert(t.filter(pred).map_values(msg) =~= Seq::<MessageView>::empty());
    }
}

/// The messages for the words in the first `i` nodes are those of each node
/// in turn.
proof fn lemma_body_hits_flatten(ctx: &Context, slug: Seq<char>, words: Seq<Seq<char>>, i: int)
    requires
        0 <= i <= ctx.body@.len(),
    ensures
        body_hits(ctx, slug, words, i) == Seq::new(i as nat, |m: int| hits_of_node(ctx, slug, ctx.body@[m], words)).flatten(),
    decreases i,
{
    let parts = Seq::new(i as nat, |m: int| hits_of_node(ctx, slug, ctx.body@[m], words));
    parts.lemma_flatten_and_flatten_alt_are_equivalent();
    if i > 0 {
        lemma_body_hits_flatten(ctx, slug, words, i - 1);
        let prev = Seq::new((i - 1) as nat, |m: int| hits_of_node(ctx, slug, ctx.body@[m], words));
        prev.lemma_flatten_and_flatten_alt_are_equivalent();
        assert(parts.drop_last() =~= prev);
        lemma_node_hits_filter(ctx, slug, ctx.body@[i - 1], words, words.len() as int);
    } else {
        assert(parts =~= Seq::<Seq<MessageView>>::empty());
    }
}

/// The messages for the first `k` words found nowhere are, in order, those
/// of the words that no node holds.
proof fn lemma_fallback_filter(ctx: &Context, slug: Seq<char>, words: Seq<Seq<char>>, k: int)
    requires
        0 <= k <= words.len(),
    ensures
        fallback(ctx, slug, words, k) == Seq::new(k as nat, |m: int| m).filter(
            |m: int| !found_in(ctx, slug, words[m], ctx.body@.len() as int),
        ).map_values(|m: int| unfound_message(ctx, slug, words[m])),
    decreases k,
{
    reveal(Seq::filter);
    let pred = |m: int| !found_in(ctx, slug, words[m], ctx.body@.len() as int);
    let msg = |m: int| unfound_message(ctx, slug, words[m]);
    let t = Seq::new(k as nat, |m: int| m);
    if k > 0 {
        lemma_fallback_filter(ctx, slug, words, k - 1);
        assert(t.drop_last() =~= Seq::new((k - 1) as nat, |m: int| m));
        assert(t.last() == k - 1);
        let sub = t.drop_last().filter(pred);
        assert(t.filter(pred) == if pred(t.last()) {
            sub.push(t.last())
        } else {
            sub
        });
        assert(sub.push(t.last()).map_values(msg) =~= sub.map_values(msg).push(msg(t.last())));
    } else {
        assert(t =~= Seq::<int>::empty());
        assert(t.filter(pred) =~= Seq::<int>::empty());
        assert(t.filter(pred).map_values(msg) =~= Seq::<MessageView>::empty());
    }
}

/// Once every word's pattern compiles, the report holds, node by node in
/// document order and word by word within a node, one message for each
/// misspelled word found in a text node, wherever it stands, and then one
/// for each misspelled word found nowhere, in order.
pub proof fn law_spell_report_exact(lint: Spell, slug: Seq<char>, ctx: &Context, words: Seq<Seq<char>>)
    ensures
        first_bad(words, words.len() as int) is None ==> lint.spec_report(slug, ctx, words) == Ok::<
            Seq<MessageView>,
            Seq<char>,
        >(
            Seq::new(ctx.body@.len(), |m: int| hits_of_node(ctx, slug, ctx.body@[m], words)).flatten() + Seq::new(
                words.len(),
                |m: int| m,
            ).filter(|m: int| !found_in(ctx, slug, words[m], ctx.body@.len() as int)).map_values(
                |m: int| unfound_message(ctx, slug, words[m]),
            ),
        ),
{
    lemma_body_hits_flatten(ctx, slug, words, ctx.body@.len() as int);
    lemma_fallback_filter(ctx, slug, words, words.len() as int);
}

} // verus!
