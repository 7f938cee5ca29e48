//! Headers whose value is a comma-separated list.

use vstd::prelude::*;

use crate::lints::{
    field_snippet, field_snippet1, field_snippet_spec, get_field, line_span, line_span_spec,
    lint_message, message_one, new_message, no_messages, Context,
};
use crate::preamble::{find_field, Field, FieldView};
use crate::snippets::{annotations_view, Annotation, AnnotationView, Level, Message, MessageView};
use crate::text::{
    blen, byte_len, chars_eq, concat3, is_trimmed, lemma_piece_offset_mono, lemma_split_offsets, piece_offset, split,
    split_chars, trim, trim_chars, trim_str,
};

verus! {

/// The named header must be a list whose items are separated by a comma
/// and one space, with no empty items and no other whitespace.
#[derive(Debug, Clone)]
pub struct List(pub String);

/// What the items of a list header give: a message for each empty item,
/// and the annotations of the items lacking a leading space and of those
/// with extra whitespace.
#[verifier::ext_equal]
pub struct ListScan {
    pub empty: Seq<MessageView>,
    pub missing: Seq<AnnotationView>,
    pub extra: Seq<AnnotationView>,
}

/// The message for an empty item at byte `start` of the header line.
pub open spec fn empty_item_message(
    level: Level,
    slug: Seq<char>,
    name: Seq<char>,
    origin: Option<Seq<char>>,
    f: FieldView,
    start: int,
) -> MessageView {
    lint_message(
        level,
        slug,
        "preamble header `"@ + name + "` cannot have empty items"@,
        seq![field_snippet_spec(f, origin, seq![line_span_spec(level, f, start, 1, "this item is empty"@)])],
        seq![],
    )
}

/// The outcome of the first `k` of `items`, the pieces of the trimmed value
/// of header `f` split at commas.
pub open spec fn list_scan(
    level: Level,
    slug: Seq<char>,
    name: Seq<char>,
    origin: Option<Seq<char>>,
    f: FieldView,
    items: Seq<Seq<char>>,
    k: int,
) -> ListScan
    decreases k,
{
    if k <= 0 {
        ListScan { empty: seq![], missing: seq![], extra: seq![] }
    } else {
        let p = list_scan(level, slug, name, origin, f, items, k - 1);
        let item = items[k - 1];
        let current = piece_offset(items, k - 1);
        let base = blen(f.name) + current;
        let extra = line_span_spec(level, f, base + 2, blen(item) as int, "extra space"@);
        if trim(item).len() == 0 {
            ListScan { empty: p.empty.push(empty_item_message(level, slug, name, origin, f, base + 1)), ..p }
        } else if item[0] == ' ' {
            if is_trimmed(item.drop_first()) {
                p
            } else {
                ListScan { extra: p.extra.push(extra), ..p }
            }
        } else if current == 0 {
            if is_trimmed(item) {
                p
            } else {
                ListScan { extra: p.extra.push(extra), ..p }
            }
        } else {
            ListScan { missing: p.missing.push(line_span_spec(level, f, base + 1, 1, "missing space"@)), ..p }
        }
    }
}

impl List {
    /// When the header is present with a non-blank value: a message for
    /// each empty item, in order; then one marking every item (but the
    /// first) that does not begin with a space, if there is one; then one
    /// marking every item with extra whitespace, if there is one.
    pub open spec fn spec_lint(&self, slug: Seq<char>, ctx: &Context) -> Seq<MessageView> {
        let level = ctx.annotation_level;
        let origin = ctx.origin_view();
        match find_field(ctx.preamble@, self.0@) {
            None => seq![],
            Some(f) => {
                let value = trim(f.value);
                if value.len() == 0 {
                    seq![]
                } else {
                    let items = split(value, ',');
                    let s = list_scan(level, slug, self.0@, origin, f, items, items.len() as int);
                    let missing = if s.missing.len() == 0 {
                        seq![]
                    } else {
                        seq![
                            lint_message(
                                level,
                                slug,
                                "preamble header list items must begin with a space"@,
                                seq![field_snippet_spec(f, origin, s.missing)],
                                seq![],
                            ),
                        ]
                    };
                    let extra = if s.extra.len() == 0 {
                        seq![]
                    } else {
                        seq![
                            lint_message(
                                level,
                                slug,
                                "preamble header list items have extra whitespace"@,
                                seq![field_snippet_spec(f, origin, s.extra)],
                                seq![],
                            ),
                        ]
                    };
                    s.empty + missing + extra
                }
            },
        }
    }

    #[verifier::rlimit(40)]
    fn scan(&self, slug: &str, ctx: &Context, field: &Field, value: &Vec<char>) -> (r: (Vec<Message>, Vec<Annotation>, Vec<Annotation>))
        requires
            field@.wf(),
            value@ == trim(field@.value),
        ensures
            ({
                let items = split(value@, ',');
                let s = list_scan(ctx.annotation_level, slug@, self.0@, ctx.origin_view(), field@, items, items.len() as int);
                &&& r.0@.map_values(|m: Message| m@) == s.empty
                &&& annotations_view(r.1@) == s.missing
                &&& annotations_view(r.2@) == s.extra
            }),
    {
        let level = ctx.annotation_level();
        let items = split_chars(value.as_slice(), ',');
        let ghost sitems = split(value@, ',');
        proof {
            lemma_split_offsets(value@, ',');
            crate::text::lemma_trim_bound(field@.value);
        }
        let name_count = crate::text::str_byte_len(field.name());
        let mut empty: Vec<Message> = Vec::new();
        let mut missing: Vec<Annotation> = Vec::new();
        let mut extra: Vec<Annotation> = Vec::new();
        let mut offset: usize = 0;
        let mut i: usize = 0;
        while i < items.len()
            invariant
                field@.wf(),
                blen(value@) <= blen(field@.value),
                level == ctx.annotation_level,
                sitems == split(value@, ','),
                items@.len() == sitems.len(),
                forall|j: int| 0 <= j < items@.len() ==> #[trigger] items@[j]@ == sitems[j],
                forall|j: int|
                    0 <= j < sitems.len() ==> piece_offset(sitems, j) + blen(#[trigger] sitems[j])
                        <= blen(value@),
                name_count == blen(field@.name),
                i <= items@.len(),
                offset == piece_offset(sitems, i as int),
                ({
                    let s = list_scan(level, slug@, self.0@, ctx.origin_view(), field@, sitems, i as int);
                    &&& empty@.map_values(|m: Message| m@) == s.empty
                    &&& annotations_view(missing@) == s.missing
                    &&& annotations_view(extra@) == s.extra
                }),
            decreases items@.len() - i,
        {
            let item = &items[i];
            assert(item@ == sitems[i as int]);
            let item_count = byte_len(item.as_slice());
            let current = offset;
            let ghost prev = list_scan(level, slug@, self.0@, ctx.origin_view(), field@, sitems, i as int);
            let ghost next = list_scan(level, slug@, self.0@, ctx.origin_view(), field@, sitems, i + 1);
            let trimmed = trim_chars(item.as_slice());
            if trimmed.len() == 0 {
                let title = concat3("preamble header `", self.0.as_str(), "` cannot have empty items");
                let ann = line_span(level, field, name_count + current + 1, 1, "this item is empty");
                let snip = field_snippet1(field, ctx.origin(), ann);
                let m = message_one(level, slug, title, snip);
                proof {
                    reveal_strlit("preamble header `");
                    reveal_strlit("` cannot have empty items");
                    reveal_strlit("this item is empty");
                }
                empty.push(m);
                assert(empty@.map_values(|m: Message| m@) =~= next.empty);
                assert(next.missing == prev.missing);
                assert(next.extra == prev.extra);
            } else if item[0] == ' ' {
                let rest = vstd::slice::slice_subrange(item.as_slice(), 1, item.len());
                assert(rest@ =~= item@.drop_first());
                let t = trim_chars(rest);
                if !chars_eq(t.as_slice(), rest) {
                    let ann = line_span(level, field, name_count + current + 2, item_count, "extra space");
                    proof {
                        reveal_strlit("extra space");
                    }
                    extra.push(ann);
                    assert(annotations_view(extra@) =~= next.extra);
                }
                assert(next.missing == prev.missing);
                assert(next.empty == prev.empty);
            } else if current == 0 {
                if !chars_eq(trimmed.as_slice(), item.as_slice()) {
                    let ann = line_span(level, field, name_count + current + 2, item_count, "extra space");
                    proof {
                        reveal_strlit("extra space");
                    }
                    extra.push(ann);
                    assert(annotations_view(extra@) =~= next.extra);
                }
                assert(next.missing == prev.missing);
                assert(next.empty == prev.empty);
            } else {
                let ann = line_span(level, field, name_count + current + 1, 1, "missing space");
                proof {
                    reveal_strlit("missing space");
                }
                missing.push(ann);
                assert(annotations_view(missing@) =~= next.missing);
                assert(next.extra == prev.extra);
                assert(next.empty == prev.empty);
            }
            offset = offset + item_count + 1;
            i += 1;
        }
        (empty, missing, extra)
    }

    pub fn lint(&self, slug: &str, ctx: &Context) -> (r: Vec<Message>)
        requires
            ctx.wf(),
        ensures
            r@.map_values(|m: Message| m@) == self.spec_lint(slug@, ctx),
    {
        let field = match get_field(ctx, self.0.as_str()) {
            None => return no_messages(),
            Some(f) => f,
        };
        let value = trim_str(field.value());
        if value.len() == 0 {
            let r = no_messages();
            assert(r@.map_values(|m: Message| m@) =~= self.spec_lint(slug@, ctx));
            return r;
        }
        let level = ctx.annotation_level();
        let (mut r, missing, extra) = self.scan(slug, ctx, field, &value);
        let ghost r0 = r@.map_values(|m: Message| m@);
        let ghost after_missing = r0;
        if missing.len() > 0 {
            let snip = field_snippet(field, ctx.origin(), missing);
            let title = String::from_str("preamble header list items must begin with a space");
            let m = message_one(level, slug, title, snip);
            proof {
                reveal_strlit("preamble header list items must begin with a space");
            }
            r.push(m);
            proof {
                after_missing = r0.push(m@);
            }
            assert(r@.map_values(|m: Message| m@) =~= after_missing);
        }
        let ghost r1 = r@.map_values(|m: Message| m@);
        if extra.len() > 0 {
            let snip = field_snippet(field, ctx.origin(), extra);
            let title = String::from_str("preamble header list items have extra whitespace");
            let m = message_one(level, slug, title, snip);
            proof {
                reveal_strlit("preamble header list items have extra whitespace");
            }
            r.push(m);
            assert(r@.map_values(|m: Message| m@) =~= r1.push(m@));
        }
        proof {
            assert(r@.map_values(|m: Message| m@) =~= self.spec_lint(slug@, ctx));
        }
        r
    }
}

/// Item `k` of the pieces of a list is well formed: it is not blank, and it
/// is one space followed by text with no whitespace around it, or, for the
/// first item only, such text alone.
pub open spec fn well_formed_item(items: Seq<Seq<char>>, k: int) -> bool {
    &&& trim(items[k]).len() > 0
    &&& if items[k][0] == ' ' {
        is_trimmed(items[k].drop_first())
    } else {
        k == 0 && is_trimmed(items[k])
    }
}

/// How many findings a list scan holds.
pub open spec fn scan_total(s: ListScan) -> int {
    (s.empty.len() + s.missing.len() + s.extra.len()) as int
}

/// Over the first `k` items, the scan finds nothing exactly when every one
/// of them is well formed.
proof fn lemma_list_scan_clean(
    level: Level,
    slug: Seq<char>,
    name: Seq<char>,
    origin: Option<Seq<char>>,
    f: FieldView,
    items: Seq<Seq<char>>,
    k: int,
)
    requires
        0 <= k <= items.len(),
    ensures
        scan_total(list_scan(level, slug, name, origin, f, items, k)) == 0 <==> forall|j: int|
            0 <= j < k ==> #[trigger] well_formed_item(items, j),
    decreases k,
{
    if k > 0 {
        lemma_list_scan_clean(level, slug, name, origin, f, items, k - 1);
        let p = list_scan(level, slug, name, origin, f, items, k - 1);
        let s = list_scan(level, slug, name, origin, f, items, k);
        let last = k - 1;
        if last > 0 {
            lemma_piece_offset_mono(items, 0, last);
        }
        assert(piece_offset(items, last) == 0 <==> last == 0);
        assert(scan_total(s) == scan_total(p) + if well_formed_item(items, last) { 0int } else { 1int }) by {
            if trim(items[last]).len() == 0 {
            } else if items[last][0] == ' ' {
            } else if last == 0 {
            } else {
            }
        }
        if forall|j: int| 0 <= j < k ==> #[trigger] well_formed_item(items, j) {
            assert(well_formed_item(items, last));
        }
        if !(forall|j: int| 0 <= j < last ==> #[trigger] well_formed_item(items, j)) {
            let j = choose|j: int| !(0 <= j < last ==> #[trigger] well_formed_item(items, j));
            assert(!(0 <= j < k ==> well_formed_item(items, j)));
        }
    }
}

/// Over the first `k` items, the scan raises its own message for each blank
/// item.
proof fn lemma_list_scan_empty(
    level: Level,
    slug: Seq<char>,
    name: Seq<char>,
    origin: Option<Seq<char>>,
    f: FieldView,
    items: Seq<Seq<char>>,
    k: int,
)
    requires
        0 <= k <= items.len(),
    ensures
        forall|j: int|
            0 <= j < k && trim(#[trigger] items[j]).len() == 0 ==> list_scan(level, slug, name, origin, f, items, k).empty.contains(
                empty_item_message(level, slug, name, origin, f, blen(f.name) + piece_offset(items, j) + 1),
            ),
    decreases k,
{
    if k > 0 {
        lemma_list_scan_empty(level, slug, name, origin, f, items, k - 1);
        let p = list_scan(level, slug, name, origin, f, items, k - 1);
        let s = list_scan(level, slug, name, origin, f, items, k);
        let last = k - 1;
        assert(s.empty == if trim(items[last]).len() == 0 {
            p.empty.push(empty_item_message(level, slug, name, origin, f, blen(f.name) + piece_offset(items, last) + 1))
        } else {
            p.empty
        }) by {
            if trim(items[last]).len() == 0 {
            } else if items[last][0] == ' ' {
            } else if piece_offset(items, last) == 0 {
            } else {
            }
        }
        assert forall|j: int|
            0 <= j < k && trim(#[trigger] items[j]).len() == 0 implies s.empty.contains(
            empty_item_message(level, slug, name, origin, f, blen(f.name) + piece_offset(items, j) + 1),
        ) by {
            let m = empty_item_message(level, slug, name, origin, f, blen(f.name) + piece_offset(items, j) + 1);
            if j < last {
                let i = choose|i: int| 0 <= i < p.empty.len() && p.empty[i] == m;
                assert(s.empty[i] == p.empty[i]);
            } else {
                assert(s.empty[s.empty.len() - 1] == m);
            }
        }
    }
}

/// When the header is present with a non-blank value, the lint reports
/// nothing exactly when every item of the value, split at commas, is well
/// formed, wherever it stands; and every blank item draws its own message,
/// marking the item. A proposal without the header, or with a blank value,
/// draws nothing.
pub proof fn law_list_exact(lint: List, slug: Seq<char>, ctx: &Context)
    ensures
        match find_field(ctx.preamble@, lint.0@) {
            None => lint.spec_lint(slug, ctx).len() == 0,
            Some(f) => {
                let r = lint.spec_lint(slug, ctx);
                let value = trim(f.value);
                let items = split(value, ',');
                &&& value.len() == 0 ==> r.len() == 0
                &&& value.len() > 0 ==> {
                    &&& r.len() == 0 <==> forall|j: int| 0 <= j < items.len() ==> #[trigger] well_formed_item(items, j)
                    &&& forall|j: int|
                        0 <= j < items.len() && trim(#[trigger] items[j]).len() == 0 ==> r.contains(
                            empty_item_message(
                                ctx.annotation_level,
                                slug,
                                lint.0@,
                                ctx.origin_view(),
                                f,
                                blen(f.name) + piece_offset(items, j) + 1,
                            ),
                        )
                }
            },
        },
{
    if let Some(f) = find_field(ctx.preamble@, lint.0@) {
        let value = trim(f.value);
        let items = split(value, ',');
        let level = ctx.annotation_level;
        let origin = ctx.origin_view();
        if value.len() > 0 {
            lemma_list_scan_clean(level, slug, lint.0@, origin, f, items, items.len() as int);
            lemma_list_scan_empty(level, slug, lint.0@, origin, f, items, items.len() as int);
            let s = list_scan(level, slug, lint.0@, origin, f, items, items.len() as int);
            let r = lint.spec_lint(slug, ctx);
            assert(r.len() >= s.empty.len());
            assert forall|i: int| 0 <= i < s.empty.len() implies r[i] == s.empty[i] by {}
            assert forall|j: int|
                0 <= j < items.len() && trim(#[trigger] items[j]).len() == 0 implies r.contains(
                empty_item_message(level, slug, lint.0@, origin, f, blen(f.name) + piece_offset(items, j) + 1),
            ) by {
                let m = empty_item_message(level, slug, lint.0@, origin, f, blen(f.name) + piece_offset(items, j) + 1);
                let i = choose|i: int| 0 <= i < s.empty.len() && s.empty[i] == m;
                assert(r[i] == s.empty[i]);
            }
        }
    }
}

} // verus!
