//! Headers whose value is an unsigned integer, or a list of them.

use vstd::prelude::*;

use crate::lints::{
    field_snippet, field_snippet0, field_snippet1, field_snippet_spec, lint_message, message_one, line_span, line_span_spec, new_message,
    value_span, value_span_spec, vec1, Context,
};
use crate::preamble::{find_field, FieldView};
use crate::snippets::{annotations_view, Annotation, Level, Message, MessageView};
use crate::text::{
    blen, chars_of, concat3, lemma_split_offsets, parse_u64, parse_unsigned, piece_offset, split,
    split_chars, string_of, trim, trim_chars, trim_str,
};

verus! {

/// The named header must hold an unsigned integer.
#[derive(Debug, Clone)]
pub struct Uint(pub String);

/// The named header must hold an unsigned integer; some values that are not
/// get a message of their own.
#[derive(Debug, Clone)]
pub struct ConfiguredUint {
    pub name: String,
    pub messages: Option<Vec<UintMessage>>,
}

/// The message (and label) for a header whose value is `value`.
#[derive(Debug, Clone)]
pub struct UintMessage {
    pub value: String,
    pub message: String,
    pub label: Option<String>,
}

/// The named header must hold a comma-separated list of unsigned integers in
/// ascending order.
#[derive(Debug, Clone)]
pub struct UintList(pub String);

/// A header value is an unsigned 64-bit integer, once trimmed.
pub open spec fn is_u64_text(s: Seq<char>) -> bool {
    parse_unsigned(trim(s), u64::MAX as int) is Some
}

pub open spec fn uint_title(name: Seq<char>) -> Seq<char> {
    "preamble header `"@ + name + "` must be an unsigned integer"@
}

pub open spec fn not_uint_label() -> Seq<char> {
    "not a non-negative integer"@
}

impl Uint {
    /// The messages for a proposal: one when the header is present and its
    /// trimmed value is not an unsigned integer.
    pub open spec fn spec_lint(&self, slug: Seq<char>, ctx: &Context) -> Seq<MessageView> {
        let level = ctx.annotation_level;
        match find_field(ctx.preamble@, self.0@) {
            None => seq![],
            Some(f) => if is_u64_text(f.value) {
                seq![]
            } else {
                seq![
                    lint_message(
                        level,
                        slug,
                        uint_title(self.0@),
                        seq![
                            field_snippet_spec(
                                f,
                                ctx.origin_view(),
                                seq![value_span_spec(level, f, not_uint_label())],
                            ),
                        ],
                        seq![],
                    ),
                ]
            },
        }
    }

    pub fn lint(&self, slug: &str, ctx: &Context) -> (r: Vec<Message>)
        requires
            ctx.wf(),
        ensures
            r@.map_values(|m: Message| m@) == self.spec_lint(slug@, ctx),
    {
        let field = match ctx.preamble().by_name(self.0.as_str()) {
            None => {
                let r = Vec::new();
                assert(r@.map_values(|m: Message| m@) =~= self.spec_lint(slug@, ctx));
                return r;
            },
            Some(f) => f,
        };
        proof {
            let k = choose|k: int| 0 <= k < ctx.preamble.fields@.len() && ctx.preamble.fields@[k] == *field;
            assert(ctx.preamble.fields@[k]@.wf());
        }
        let trimmed = trim_str(field.value());
        if parse_u64(trimmed.as_slice()).is_some() {
            let r = Vec::new();
            assert(r@.map_values(|m: Message| m@) =~= self.spec_lint(slug@, ctx));
            return r;
        }
        let level = ctx.annotation_level();
        let ann = value_span(level, field, "not a non-negative integer");
        let snip = field_snippet1(field, ctx.origin(), ann);
        let title = concat3("preamble header `", self.0.as_str(), "` must be an unsigned integer");
        let m = message_one(level, slug, title, snip);
        let r = vec1(m);
        proof {
            reveal_strlit("preamble header `");
            reveal_strlit("` must be an unsigned integer");
            reveal_strlit("not a non-negative integer");
            assert(r@.map_values(|m: Message| m@) =~= self.spec_lint(slug@, ctx));
        }
        r
    }
}

impl ConfiguredUint {
    /// A lint with no special messages.
    pub fn new(name: String) -> (r: Self)
        ensures
            r.name == name,
            r.messages is None,
    {
        ConfiguredUint { name, messages: None }
    }

    /// The first special message for a value.
    pub open spec fn find_message(msgs: Seq<UintMessage>, value: Seq<char>) -> Option<UintMessage>
        decreases msgs.len(),
    {
        if msgs.len() == 0 {
            None
        } else if msgs[0].value@ == value {
            Some(msgs[0])
        } else {
            Self::find_message(msgs.drop_first(), value)
        }
    }

    /// The special message configured for a trimmed value, if any.
    pub open spec fn message_for(&self, value: Seq<char>) -> Option<UintMessage> {
        match self.messages {
            Some(m) => Self::find_message(m@, value),
            None => None,
        }
    }

    /// The messages for a proposal: one when the header is present and its
    /// trimmed value is not an unsigned integer, with the title and label of
    /// the first special message for that value, if there is one.
    pub open spec fn spec_lint(&self, slug: Seq<char>, ctx: &Context) -> Seq<MessageView> {
        let level = ctx.annotation_level;
        match find_field(ctx.preamble@, self.name@) {
            None => seq![],
            Some(f) => if is_u64_text(f.value) {
                seq![]
            } else {
                let special = self.message_for(trim(f.value));
                let title = match special {
                    Some(m) => m.message@,
                    None => uint_title(self.name@),
                };
                let label = match special {
                    Some(m) => match m.label {
                        Some(l) => l@,
                        None => not_uint_label(),
                    },
                    None => not_uint_label(),
                };
                seq![
                    lint_message(
                        level,
                        slug,
                        title,
                        seq![
                            field_snippet_spec(
                                f,
                                ctx.origin_view(),
                                seq![value_span_spec(level, f, label)],
                            ),
                        ],
                        seq![],
                    ),
                ]
            },
        }
    }

    fn lookup<'m>(msgs: &'m Vec<UintMessage>, value: &[char]) -> (r: Option<&'m UintMessage>)
        ensures
            match r {
                Some(m) => Self::find_message(msgs@, value@) == Some(*m),
                None => Self::find_message(msgs@, value@) is None,
            },
    {
        let mut i: usize = 0;
        assert(msgs@.skip(0) =~= msgs@);
        while i < msgs.len()
            invariant
                i <= msgs@.len(),
                Self::find_message(msgs@, value@) == Self::find_message(msgs@.skip(i as int), value@),
            decreases msgs@.len() - i,
        {
            let v = chars_of(msgs[i].value.as_str());
            assert(msgs@.skip(i as int)[0] == msgs@[i as int]);
            assert(msgs@.skip(i as int).drop_first() =~= msgs@.skip(i + 1));
            if crate::text::chars_eq(v.as_slice(), value) {
                return Some(&msgs[i]);
            }
            i += 1;
        }
        None
    }

    pub fn lint(&self, slug: &str, ctx: &Context) -> (r: Vec<Message>)
        requires
            ctx.wf(),
        ensures
            r@.map_values(|m: Message| m@) == self.spec_lint(slug@, ctx),
    {
        let field = match ctx.preamble().by_name(self.name.as_str()) {
            None => {
                let r = Vec::new();
                assert(r@.map_values(|m: Message| m@) =~= self.spec_lint(slug@, ctx));
                return r;
            },
            Some(f) => f,
        };
        proof {
            let k = choose|k: int| 0 <= k < ctx.preamble.fields@.len() && ctx.preamble.fields@[k] == *field;
            assert(ctx.preamble.fields@[k]@.wf());
        }
        let trimmed = trim_str(field.value());
        if parse_u64(trimmed.as_slice()).is_some() {
            let r = Vec::new();
            assert(r@.map_values(|m: Message| m@) =~= self.spec_lint(slug@, ctx));
            return r;
        }
        let special = match &self.messages {
            Some(msgs) => Self::lookup(msgs, trimmed.as_slice()),
            None => None,
        };
        let title = match special {
            Some(m) => m.message.clone(),
            None => concat3("preamble header `", self.name.as_str(), "` must be an unsigned integer"),
        };
        let label: &str = match special {
            Some(m) => match &m.label {
                Some(l) => l.as_str(),
                None => "not a non-negative integer",
            },
            None => "not a non-negative integer",
        };
        let level = ctx.annotation_level();
        let ann = value_span(level, field, label);
        let snip = field_snippet1(field, ctx.origin(), ann);
        let m = message_one(level, slug, title, snip);
        let r = vec1(m);
        proof {
            reveal_strlit("preamble header `");
            reveal_strlit("` must be an unsigned integer");
            reveal_strlit("not a non-negative integer");
            assert(r@.map_values(|m: Message| m@) =~= self.spec_lint(slug@, ctx));
        }
        r
    }
}

/// The items of a list header, split at commas (not trimmed).
pub open spec fn list_items(value: Seq<char>) -> Seq<Seq<char>> {
    split(value, ',')
}

/// The annotations for the first `k` items that are not unsigned integers.
pub open spec fn not_uint_annotations(level: Level, f: FieldView, k: int) -> Seq<crate::snippets::AnnotationView>
    decreases k,
{
    if k <= 0 {
        seq![]
    } else {
        let items = list_items(f.value);
        let prev = not_uint_annotations(level, f, k - 1);
        if is_u64_text(items[k - 1]) {
            prev
        } else {
            prev.push(
                line_span_spec(
                    level,
                    f,
                    (blen(f.name) + piece_offset(items, k - 1) + 1) as int,
                    blen(items[k - 1]) as int,
                    not_uint_label(),
                ),
            )
        }
    }
}

/// The values of the first `k` items that are unsigned integers, in order.
pub open spec fn uint_values(items: Seq<Seq<char>>, k: int) -> Seq<nat>
    decreases k,
{
    if k <= 0 {
        seq![]
    } else {
        let prev = uint_values(items, k - 1);
        match parse_unsigned(trim(items[k - 1]), u64::MAX as int) {
            Some(v) => prev.push(v),
            None => prev,
        }
    }
}

pub open spec fn nondecreasing(s: Seq<nat>) -> bool {
    forall|i: int, j: int| 0 <= i <= j < s.len() ==> s[i] <= s[j]
}

impl UintList {
    /// The messages for a proposal whose header has a non-blank value: one
    /// marking every item that is not an unsigned integer, if there is one;
    /// then one if the items that are unsigned integers are not in
    /// ascending order.
    pub open spec fn spec_lint(&self, slug: Seq<char>, ctx: &Context) -> Seq<MessageView> {
        let level = ctx.annotation_level;
        match find_field(ctx.preamble@, self.0@) {
            None => seq![],
            Some(f) => if trim(f.value).len() == 0 {
                seq![]
            } else {
                let items = list_items(f.value);
                let anns = not_uint_annotations(level, f, items.len() as int);
                let first = if anns.len() == 0 {
                    seq![]
                } else {
                    seq![
                        lint_message(
                            level,
                            slug,
                            "preamble header `"@ + self.0@ + "` items must be unsigned integers"@,
                            seq![field_snippet_spec(f, ctx.origin_view(), anns)],
                            seq![],
                        ),
                    ]
                };
                let second = if nondecreasing(uint_values(items, items.len() as int)) {
                    seq![]
                } else {
                    seq![
                        lint_message(
                            level,
                            slug,
                            "preamble header `"@ + self.0@
                                + "` items must be sorted in ascending order"@,
                            seq![field_snippet_spec(f, ctx.origin_view(), seq![])],
                            seq![],
                        ),
                    ]
                };
                first + second
            },
        }
    }

    pub fn lint(&self, slug: &str, ctx: &Context) -> (r: Vec<Message>)
        requires
            ctx.wf(),
        ensures
            r@.map_values(|m: Message| m@) == self.spec_lint(slug@, ctx),
    {
        let field = match ctx.preamble().by_name(self.0.as_str()) {
            None => {
                let r = Vec::new();
                assert(r@.map_values(|m: Message| m@) =~= self.spec_lint(slug@, ctx));
                return r;
            },
            Some(f) => f,
        };
        proof {
            let k = choose|k: int| 0 <= k < ctx.preamble.fields@.len() && ctx.preamble.fields@[k] == *field;
            assert(ctx.preamble.fields@[k]@.wf());
        }
        let trimmed = trim_str(field.value());
        if trimmed.len() == 0 {
            let r = Vec::new();
            assert(r@.map_values(|m: Message| m@) =~= self.spec_lint(slug@, ctx));
            return r;
        }
        let level = ctx.annotation_level();
        let (values, not_uint) = scan_uint_items(level, field);
        let mut r: Vec<Message> = Vec::new();
        if not_uint.len() > 0 {
            let title = concat3("preamble header `", self.0.as_str(), "` items must be unsigned integers");
            let snip = field_snippet(field, ctx.origin(), not_uint);
            r.push(message_one(level, slug, title, snip));
        }
        let sorted = is_nondecreasing(&values);
        if !sorted {
            let title = concat3("preamble header `", self.0.as_str(), "` items must be sorted in ascending order");
            let snip = field_snippet0(field, ctx.origin());
            r.push(message_one(level, slug, title, snip));
        }
        proof {
            reveal_strlit("preamble header `");
            reveal_strlit("` items must be unsigned integers");
            reveal_strlit("` items must be sorted in ascending order");
            assert(r@.map_values(|m: Message| m@) =~= self.spec_lint(slug@, ctx));
        }
        r
    }
}

/// The values of the items that are unsigned integers, and the annotations
/// of the items that are not.
#[verifier::rlimit(60)]
fn scan_uint_items(level: Level, field: &crate::preamble::Field) -> (r: (Vec<u64>, Vec<Annotation>))
    requires
        field@.wf(),
    ensures
        r.0@.map_values(|v: u64| v as nat) == uint_values(list_items(field@.value), list_items(field@.value).len() as int),
        annotations_view(r.1@) == not_uint_annotations(level, field@, list_items(field@.value).len() as int),
{
        let value_chars = chars_of(field.value());
        let items = split_chars(value_chars.as_slice(), ',');
        let ghost sitems = list_items(field@.value);
        proof {
            lemma_split_offsets(field@.value, ',');
        }
        let name_count = crate::text::str_byte_len(field.name());
        let mut values: Vec<u64> = Vec::new();
        let mut not_uint: Vec<Annotation> = Vec::new();
        let mut offset: usize = 0;
        let mut i: usize = 0;
        while i < items.len()
            invariant
                field@.wf(),
                sitems == list_items(field@.value),
                items@.len() == sitems.len(),
                forall|j: int| 0 <= j < items@.len() ==> #[trigger] items@[j]@ == sitems[j],
                forall|j: int|
                    0 <= j < sitems.len() ==> piece_offset(sitems, j) + blen(#[trigger] sitems[j])
                        <= blen(field@.value),
                name_count == blen(field@.name),
                i <= items@.len(),
                offset == piece_offset(sitems, i as int),
                annotations_view(not_uint@) == not_uint_annotations(level, field@, i as int),
                values@.map_values(|v: u64| v as nat) == uint_values(sitems, i as int),
            decreases items@.len() - i,
        {
            let item = &items[i];
            let item_count = crate::text::byte_len(item.as_slice());
            let current = offset;
            let t = trim_chars(item.as_slice());
            match parse_u64(t.as_slice()) {
                Some(v) => {
                    values.push(v);
                    proof {
                        assert(values@.map_values(|v: u64| v as nat) =~= uint_values(sitems, i + 1));
                        assert(annotations_view(not_uint@) =~= not_uint_annotations(level, field@, i + 1));
                    }
                },
                None => {
                    let ann = line_span(level, field, name_count + current + 1, item_count, "not a non-negative integer");
                    not_uint.push(ann);
                    proof {
                        reveal_strlit("not a non-negative integer");
                        assert(annotations_view(not_uint@) =~= not_uint_annotations(level, field@, i + 1));
                        assert(values@.map_values(|v: u64| v as nat) =~= uint_values(sitems, i + 1));
                    }
                },
            }
            offset = offset + item_count + 1;
            i += 1;
        }
    (values, not_uint)
}

fn is_nondecreasing(v: &Vec<u64>) -> (r: bool)
    ensures
        r == nondecreasing(v@.map_values(|x: u64| x as nat)),
{
    let ghost s = v@.map_values(|x: u64| x as nat);
    let mut i: usize = 1;
    if v.len() == 0 {
        return true;
    }
    while i < v.len()
        invariant
            1 <= i <= v@.len(),
            s == v@.map_values(|x: u64| x as nat),
            forall|a: int, b: int| 0 <= a <= b < i ==> s[a] <= s[b],
        decreases v@.len() - i,
    {
        if v[i - 1] > v[i] {
            assert(s[i - 1] > s[i as int]);
            return false;
        }
        assert forall|a: int, b: int| 0 <= a <= b < i + 1 implies s[a] <= s[b] by {
            if b == i && a < i {
                assert(s[a] <= s[i - 1]);
            }
        }
        i += 1;
    }
    true
}

/// The annotation marking item `j` of list header `f` as not an unsigned
/// integer.
pub open spec fn not_uint_annotation(level: Level, f: FieldView, j: int) -> crate::snippets::AnnotationView {
    let items = list_items(f.value);
    line_span_spec(level, f, (blen(f.name) + piece_offset(items, j) + 1) as int, blen(items[j]) as int, not_uint_label())
}

/// The annotations gathered over the first `k` items are, in order, those of
/// the items that are not unsigned integers.
proof fn lemma_not_uint_filter(level: Level, f: FieldView, k: int)
    requires
        0 <= k <= list_items(f.value).len(),
    ensures
        not_uint_annotations(level, f, k) == Seq::new(k as nat, |j: int| j).filter(
            |j: int| !is_u64_text(list_items(f.value)[j]),
        ).map_values(|j: int| not_uint_annotation(level, f, j)),
    decreases k,
{
    reveal(Seq::filter);
    let pred = |j: int| !is_u64_text(list_items(f.value)[j]);
    let ann = |j: int| not_uint_annotation(level, f, j);
    let t = Seq::new(k as nat, |j: int| j);
    if k > 0 {
        lemma_not_uint_filter(level, f, k - 1);
        assert(t.drop_last() =~= Seq::new((k - 1) as nat, |j: int| j));
        assert(t.last() == k - 1);
        let sub = t.drop_last().filter(pred);
        assert(t.filter(pred) == if pred(t.last()) {
            sub.push(t.last())
        } else {
            sub
        });
        assert(sub.push(t.last()).map_values(ann) =~= sub.map_values(ann).push(ann(t.last())));
    } else {
        assert(t =~= Seq::<int>::empty());
        assert(t.filter(pred) =~= Seq::<int>::empty());
        assert(t.filter(pred).map_values(ann) =~= Seq::<crate::snippets::AnnotationView>::empty());
    }
}

/// The values gathered over the first `k` items are, in order, those of the
/// items that are unsigned integers.
proof fn lemma_uint_values_filter(items: Seq<Seq<char>>, k: int)
    requires
        0 <= k <= items.len(),
    ensures
        uint_values(items, k) == items.take(k).filter(|it: Seq<char>| is_u64_text(it)).map_values(
            |it: Seq<char>| parse_unsigned(trim(it), u64::MAX as int)->0,
        ),
    decreases k,
{
    reveal(Seq::filter);
    let pred = |it: Seq<char>| is_u64_text(it);
    let val = |it: Seq<char>| parse_unsigned(trim(it), u64::MAX as int)->0;
    let t = items.take(k);
    if k > 0 {
        lemma_uint_values_filter(items, k - 1);
        assert(t.drop_last() =~= items.take(k - 1));
        assert(t.last() == items[k - 1]);
        let sub = t.drop_last().filter(pred);
        assert(t.filter(pred) == if pred(t.last()) {
            sub.push(t.last())
        } else {
            sub
        });
        assert(sub.push(t.last()).map_values(val) =~= sub.map_values(val).push(val(t.last())));
    } else {
        assert(t =~= Seq::<Seq<char>>::empty());
        assert(t.filter(pred) =~= Seq::<Seq<char>>::empty());
        assert(t.filter(pred).map_values(val) =~= Seq::<nat>::empty());
    }
}

/// When the header is present with a non-blank value, the lint raises one
/// message when some item, wherever it stands, is not an unsigned integer,
/// marking exactly those items in order, and one more when the items that
/// are unsigned integers are not in ascending order; a proposal without the
/// header, or with a blank value, draws nothing.
pub proof fn law_uint_list_exact(lint: UintList, slug: Seq<char>, ctx: &Context)
    ensures
        match find_field(ctx.preamble@, lint.0@) {
            None => lint.spec_lint(slug, ctx).len() == 0,
            Some(f) => {
                let r = lint.spec_lint(slug, ctx);
                let items = list_items(f.value);
                let bad = exists|j: int| 0 <= j < items.len() && !is_u64_text(#[trigger] items[j]);
                let values = items.filter(|it: Seq<char>| is_u64_text(it)).map_values(
                    |it: Seq<char>| parse_unsigned(trim(it), u64::MAX as int)->0,
                );
                &&& trim(f.value).len() == 0 ==> r.len() == 0
                &&& trim(f.value).len() > 0 ==> {
                    &&& r.len() == (if bad { 1int } else { 0int }) + (if nondecreasing(values) { 0int } else { 1int })
                    &&& bad ==> r[0].snippets[0].annotations == Seq::new(items.len(), |j: int| j).filter(
                        |j: int| !is_u64_text(items[j]),
                    ).map_values(|j: int| not_uint_annotation(ctx.annotation_level, f, j))
                }
            },
        },
{
    if let Some(f) = find_field(ctx.preamble@, lint.0@) {
        let items = list_items(f.value);
        let level = ctx.annotation_level;
        lemma_not_uint_filter(level, f, items.len() as int);
        lemma_uint_values_filter(items, items.len() as int);
        assert(items.take(items.len() as int) =~= items);
        let idx = Seq::new(items.len(), |j: int| j);
        let pred = |j: int| !is_u64_text(items[j]);
        let filtered = idx.filter(pred);
        if exists|j: int| 0 <= j < items.len() && !is_u64_text(#[trigger] items[j]) {
            let j = choose|j: int| 0 <= j < items.len() && !is_u64_text(#[trigger] items[j]);
            assert(pred(idx[j]));
            idx.lemma_filter_contains(pred, j);
            assert(filtered.len() > 0);
        } else if filtered.len() > 0 {
            idx.lemma_filter_pred(pred, 0);
            assert(filtered.contains(filtered[0]));
            idx.lemma_filter_contains_rev(pred, filtered[0]);
            let i = choose|i: int| 0 <= i < idx.len() && idx[i] == filtered[0];
            assert(!is_u64_text(items[i]));
        }
    }
}

/// The header draws one message exactly when it is present and its trimmed
/// value is not an unsigned 64-bit integer; otherwise none.
pub proof fn law_uint_exact(lint: Uint, slug: Seq<char>, ctx: &Context)
    ensures
        match find_field(ctx.preamble@, lint.0@) {
            None => lint.spec_lint(slug, ctx).len() == 0,
            Some(f) => {
                &&& lint.spec_lint(slug, ctx).len() == (if parse_unsigned(trim(f.value), u64::MAX as int) is Some {
                    0int
                } else {
                    1int
                })
                &&& parse_unsigned(trim(f.value), u64::MAX as int) is None ==> lint.spec_lint(slug, ctx)[0].title
                    == uint_title(lint.0@)
            },
        },
{
}

/// The first of `msgs` configured for `value` is the one `find_message`
/// gives, and it gives none when no message is configured for `value`.
proof fn lemma_find_message_first(msgs: Seq<UintMessage>, value: Seq<char>)
    ensures
        match ConfiguredUint::find_message(msgs, value) {
            Some(m) => exists|i: int|
                0 <= i < msgs.len() && #[trigger] msgs[i] == m && msgs[i].value@ == value && forall|i2: int|
                    0 <= i2 < i ==> (#[trigger] msgs[i2]).value@ != value,
            None => forall|i: int| 0 <= i < msgs.len() ==> (#[trigger] msgs[i]).value@ != value,
        },
    decreases msgs.len(),
{
    if msgs.len() > 0 && msgs[0].value@ != value {
        lemma_find_message_first(msgs.drop_first(), value);
        match ConfiguredUint::find_message(msgs.drop_first(), value) {
            Some(m) => {
                let i = choose|i: int|
                    0 <= i < msgs.drop_first().len() && #[trigger] msgs.drop_first()[i] == m && msgs.drop_first()[i].value@
                        == value && forall|i2: int| 0 <= i2 < i ==> (#[trigger] msgs.drop_first()[i2]).value@ != value;
                assert(msgs[i + 1] == m);
                assert forall|i2: int| 0 <= i2 < i + 1 implies (#[trigger] msgs[i2]).value@ != value by {
                    if i2 > 0 {
                        assert(msgs[i2] == msgs.drop_first()[i2 - 1]);
                    }
                }
            },
            None => {
                assert forall|i: int| 0 <= i < msgs.len() implies (#[trigger] msgs[i]).value@ != value by {
                    if i > 0 {
                        assert(msgs[i] == msgs.drop_first()[i - 1]);
                    }
                }
            },
        }
    }
}

/// The header draws one message exactly when it is present and its trimmed
/// value is not an unsigned 64-bit integer; its title is that of the first
/// configured message for that value, wherever it stands in the list, or the
/// general one when none is configured for it.
pub proof fn law_configured_uint_exact(lint: ConfiguredUint, slug: Seq<char>, ctx: &Context)
    ensures
        match find_field(ctx.preamble@, lint.name@) {
            None => lint.spec_lint(slug, ctx).len() == 0,
            Some(f) => {
                let r = lint.spec_lint(slug, ctx);
                let v = trim(f.value);
                &&& r.len() == (if parse_unsigned(v, u64::MAX as int) is Some { 0int } else { 1int })
                &&& parse_unsigned(v, u64::MAX as int) is None ==> match lint.messages {
                    Some(ms) => {
                        &&& (exists|i: int| 0 <= i < ms@.len() && (#[trigger] ms@[i]).value@ == v) ==> exists|i: int|
                            0 <= i < ms@.len() && (#[trigger] ms@[i]).value@ == v && r[0].title == ms@[i].message@
                                && forall|i2: int| 0 <= i2 < i ==> (#[trigger] ms@[i2]).value@ != v
                        &&& !(exists|i: int| 0 <= i < ms@.len() && (#[trigger] ms@[i]).value@ == v) ==> r[0].title
                            == uint_title(lint.name@)
                    },
                    None => r[0].title == uint_title(lint.name@),
                }
            },
        },
{
    if let Some(f) = find_field(ctx.preamble@, lint.name@) {
        if let Some(ms) = lint.messages {
            lemma_find_message_first(ms@, trim(f.value));
        }
    }
}

} // verus!
