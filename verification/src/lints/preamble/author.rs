//! The authors header: a comma-separated list of names with a GitHub
//! username, an email address, both, or neither.

use vstd::prelude::*;

use crate::lints::{
    field_snippet0, field_snippet1, field_snippet_spec, get_field, line_span, line_span_spec,
    lint_message, message_one, new_message, no_messages, result_view, vec1, Context, Error,
};
use crate::pattern::{compile, is_match, regex_compiles, regex_error, regex_matches, Pattern};
use crate::preamble::{find_field, Field, FieldView};
use crate::snippets::{footer, Footer, FooterView, Level, Message, MessageView};
use crate::text::{
    blen, byte_len, chars_of, concat3, lemma_split_offsets, piece_offset, split, split_chars,
    string_of, trim, trim_chars,
};

verus! {

/// Every item of the named header must be an author in one of the accepted
/// forms, and at least one must give a GitHub username.
#[derive(Debug, Clone)]
pub struct Author(pub String);

/// A name and a GitHub username.
pub open spec fn username_pattern() -> Seq<char> {
    "^[^()<>,@]+ \\(@[a-zA-Z\\d-]+\\)$"@
}

/// A name and an email address.
pub open spec fn email_pattern() -> Seq<char> {
    "^[^()<>,@]+ <[^@][^>]*@[^>]+\\.[^>]+>$"@
}

/// A name, a GitHub username and an email address.
pub open spec fn both_pattern() -> Seq<char> {
    "^[^()<>,@]+ \\(@[a-zA-Z\\d-]+\\) <[^@][^>]*@[^>]+\\.[^>]+>$"@
}

/// Just a name.
pub open spec fn name_pattern() -> Seq<char> {
    "^[^()<>,@]+$"@
}

/// The four forms, in order.
pub open spec fn author_patterns() -> Seq<Seq<char>> {
    seq![username_pattern(), email_pattern(), both_pattern(), name_pattern()]
}

/// The first of the four forms that does not compile, if any.
pub open spec fn first_bad_pattern() -> Option<Seq<char>> {
    if !regex_compiles(username_pattern()) {
        Some(username_pattern())
    } else if !regex_compiles(email_pattern()) {
        Some(email_pattern())
    } else if !regex_compiles(both_pattern()) {
        Some(both_pattern())
    } else if !regex_compiles(name_pattern()) {
        Some(name_pattern())
    } else {
        None
    }
}

/// The help lines shown with an unrecognized author.
pub open spec fn author_footers() -> Seq<FooterView> {
    seq![
        FooterView { level: Level::Help, title: "Try `Random J. User (@username) <test@example.com>` for an author with a GitHub username plus email."@ },
        FooterView { level: Level::Help, title: "Try `Random J. User (@username)` for an author with a GitHub username."@ },
        FooterView { level: Level::Help, title: "Try `Random J. User <test@example.com>` for an author with an email."@ },
        FooterView { level: Level::Help, title: "Try `Random J. User` for an author without contact information."@ },
    ]
}

/// An item, once trimmed, is in one of the four forms.
pub open spec fn is_author(t: Seq<char>) -> bool {
    regex_matches(username_pattern(), t) || regex_matches(email_pattern(), t) || regex_matches(both_pattern(), t)
        || regex_matches(name_pattern(), t)
}

/// An item, once trimmed, gives a GitHub username.
pub open spec fn has_username(t: Seq<char>) -> bool {
    regex_matches(username_pattern(), t) || regex_matches(both_pattern(), t)
}

/// The messages for the first `k` items that are not authors, and whether
/// one of the first `k` gives a username.
pub open spec fn author_scan(level: Level, slug: Seq<char>, origin: Option<Seq<char>>, f: FieldView, k: int) -> (Seq<MessageView>, bool)
    decreases k,
{
    if k <= 0 {
        (seq![], false)
    } else {
        let items = split(f.value, ',');
        let (msgs, named) = author_scan(level, slug, origin, f, k - 1);
        let t = trim(items[k - 1]);
        if is_author(t) {
            (msgs, named || has_username(t))
        } else {
            let start = blen(f.name) + piece_offset(items, k - 1) + 1;
            (
                msgs.push(
                    lint_message(
                        level,
                        slug,
                        "authors in the preamble must match the expected format"@,
                        seq![field_snippet_spec(f, origin, seq![line_span_spec(level, f, start, blen(items[k - 1]) as int, "unrecognized author"@)])],
                        author_footers(),
                    ),
                ),
                named,
            )
        }
    }
}

impl Author {
    /// Nothing when the header is absent; an error when one of the four
    /// forms does not compile; otherwise a message for each item that is
    /// in none of the forms, then one if no item gives a username.
    pub open spec fn spec_lint(&self, slug: Seq<char>, ctx: &Context) -> Result<Seq<MessageView>, Seq<char>> {
        let level = ctx.annotation_level;
        let origin = ctx.origin_view();
        match find_field(ctx.preamble@, self.0@) {
            None => Ok(seq![]),
            Some(f) => match first_bad_pattern() {
                Some(p) => Err(regex_error(p)),
                None => {
                    let (msgs, named) = author_scan(level, slug, origin, f, split(f.value, ',').len() as int);
                    Ok(
                        msgs + if named {
                            seq![]
                        } else {
                            seq![
                                lint_message(
                                    level,
                                    slug,
                                    "preamble header `"@ + self.0@ + "` must contain at least one GitHub username"@,
                                    seq![field_snippet_spec(f, origin, seq![])],
                                    seq![],
                                ),
                            ]
                        },
                    )
                },
            },
        }
    }

    pub fn lint(&self, slug: &str, ctx: &Context) -> (r: Result<Vec<Message>, Error>)
        requires
            ctx.wf(),
        ensures
            result_view(r) == self.spec_lint(slug@, ctx),
    {
        let field = match get_field(ctx, self.0.as_str()) {
            None => return Ok(no_messages()),
            Some(f) => f,
        };
        proof {
            reveal_strlit("^[^()<>,@]+ \\(@[a-zA-Z\\d-]+\\)$");
            reveal_strlit("^[^()<>,@]+ <[^@][^>]*@[^>]+\\.[^>]+>$");
            reveal_strlit("^[^()<>,@]+ \\(@[a-zA-Z\\d-]+\\) <[^@][^>]*@[^>]+\\.[^>]+>$");
            reveal_strlit("^[^()<>,@]+$");
        }
        let username = match compile("^[^()<>,@]+ \\(@[a-zA-Z\\d-]+\\)$") {
            Ok(p) => p,
            Err(message) => return Err(Error::Custom { message }),
        };
        let email = match compile("^[^()<>,@]+ <[^@][^>]*@[^>]+\\.[^>]+>$") {
            Ok(p) => p,
            Err(message) => return Err(Error::Custom { message }),
        };
        let both = match compile("^[^()<>,@]+ \\(@[a-zA-Z\\d-]+\\) <[^@][^>]*@[^>]+\\.[^>]+>$") {
            Ok(p) => p,
            Err(message) => return Err(Error::Custom { message }),
        };
        let name_only = match compile("^[^()<>,@]+$") {
            Ok(p) => p,
            Err(message) => return Err(Error::Custom { message }),
        };
        let level = ctx.annotation_level();
        let (mut msgs, named) = scan(level, slug, ctx, field, &username, &email, &both, &name_only);
        if !named {
            let title = concat3("preamble header `", self.0.as_str(), "` must contain at least one GitHub username");
            let m = message_one(level, slug, title, field_snippet0(field, ctx.origin()));
            proof {
                reveal_strlit("preamble header `");
                reveal_strlit("` must contain at least one GitHub username");
            }
            let ghost before = msgs@.map_values(|m: Message| m@);
            msgs.push(m);
            assert(msgs@.map_values(|m: Message| m@) =~= before.push(m@));
        }
        proof {
            assert(msgs@.map_values(|m: Message| m@) =~= self.spec_lint(slug@, ctx)->Ok_0);
        }
        Ok(msgs)
    }
}

/// The help lines shown with an unrecognized author.
fn help_footers() -> (r: Vec<Footer>)
    ensures
        r@.map_values(|f: Footer| f@) == author_footers(),
{
    let mut r = Vec::new();
    r.push(footer(Level::Help, String::from_str("Try `Random J. User (@username) <test@example.com>` for an author with a GitHub username plus email.")));
    r.push(footer(Level::Help, String::from_str("Try `Random J. User (@username)` for an author with a GitHub username.")));
    r.push(footer(Level::Help, String::from_str("Try `Random J. User <test@example.com>` for an author with an email.")));
    r.push(footer(Level::Help, String::from_str("Try `Random J. User` for an author without contact information.")));
    proof {
        reveal_strlit("Try `Random J. User (@username) <test@example.com>` for an author with a GitHub username plus email.");
        reveal_strlit("Try `Random J. User (@username)` for an author with a GitHub username.");
        reveal_strlit("Try `Random J. User <test@example.com>` for an author with an email.");
        reveal_strlit("Try `Random J. User` for an author without contact information.");
        assert(r@.map_values(|f: Footer| f@) =~= author_footers());
    }
    r
}

/// Checks every item against the four forms.
#[verifier::rlimit(40)]
fn scan(
    level: Level,
    slug: &str,
    ctx: &Context,
    field: &Field,
    username: &Pattern,
    email: &Pattern,
    both: &Pattern,
    name_only: &Pattern,
) -> (r: (Vec<Message>, bool))
    requires
        field@.wf(),
        username@ == username_pattern(),
        email@ == email_pattern(),
        both@ == both_pattern(),
        name_only@ == name_pattern(),
    ensures
        (r.0@.map_values(|m: Message| m@), r.1) == author_scan(level, slug@, ctx.origin_view(), field@, split(field@.value, ',').len() as int),
{
    let value = chars_of(field.value());
    let items = split_chars(value.as_slice(), ',');
    let ghost sitems = split(field@.value, ',');
    proof {
        lemma_split_offsets(field@.value, ',');
    }
    let name_count = crate::text::str_byte_len(field.name());
    let mut msgs: Vec<Message> = Vec::new();
    let mut named = false;
    let mut offset: usize = 0;
    let mut i: usize = 0;
    while i < items.len()
        invariant
            field@.wf(),
            username@ == username_pattern(),
            email@ == email_pattern(),
            both@ == both_pattern(),
            name_only@ == name_pattern(),
            sitems == split(field@.value, ','),
            items@.len() == sitems.len(),
            forall|j: int| 0 <= j < items@.len() ==> #[trigger] items@[j]@ == sitems[j],
            forall|j: int|
                0 <= j < sitems.len() ==> piece_offset(sitems, j) + blen(#[trigger] sitems[j]) <= blen(field@.value),
            name_count == blen(field@.name),
            i <= items@.len(),
            offset == piece_offset(sitems, i as int),
            (msgs@.map_values(|m: Message| m@), named) == author_scan(level, slug@, ctx.origin_view(), field@, i as int),
        decreases items@.len() - i,
    {
        let item = &items[i];
        let item_count = byte_len(item.as_slice());
        let current = offset;
        let t = string_of(trim_chars(item.as_slice()).as_slice());
        let m0 = is_match(username, t.as_str());
        let m1 = is_match(email, t.as_str());
        let m2 = is_match(both, t.as_str());
        let m3 = is_match(name_only, t.as_str());
        if m0 || m1 || m2 || m3 {
            named = named || m0 || m2;
        } else {
            let ann = line_span(level, field, name_count + current + 1, item_count, "unrecognized author");
            let snip = field_snippet1(field, ctx.origin(), ann);
            let ghost sv = snip@;
            let title = String::from_str("authors in the preamble must match the expected format");
            let m = new_message(level, slug, title, vec1(snip), help_footers());
            proof {
                reveal_strlit("unrecognized author");
                reveal_strlit("authors in the preamble must match the expected format");
                assert(m@.snippets =~= seq![sv]);
            }
            let ghost before = msgs@.map_values(|m: Message| m@);
            msgs.push(m);
            assert(msgs@.map_values(|m: Message| m@) =~= before.push(m@));
        }
        offset = offset + item_count + 1;
        i += 1;
    }
    (msgs, named)
}

/// The message for item `i` of the header `f` that is in none of the forms.
pub open spec fn unrecognized_author_message(
    level: Level,
    slug: Seq<char>,
    origin: Option<Seq<char>>,
    f: FieldView,
    i: int,
) -> MessageView {
    let items = split(f.value, ',');
    let start = blen(f.name) + piece_offset(items, i) + 1;
    lint_message(
        level,
        slug,
        "authors in the preamble must match the expected format"@,
        seq![field_snippet_spec(f, origin, seq![line_span_spec(level, f, start, blen(items[i]) as int, "unrecognized author"@)])],
        author_footers(),
    )
}

/// Over the first `k` items, the scan raises, in order, the messages of the
/// items in none of the forms, and finds a username exactly when one of
/// those items that is an author gives one.
proof fn lemma_author_scan_exact(level: Level, slug: Seq<char>, origin: Option<Seq<char>>, f: FieldView, k: int)
    requires
        0 <= k <= split(f.value, ',').len(),
    ensures
        ({
            let items = split(f.value, ',');
            let s = author_scan(level, slug, origin, f, k);
            &&& s.0 == Seq::new(k as nat, |i: int| i).filter(|i: int| !is_author(trim(items[i]))).map_values(
                |i: int| unrecognized_author_message(level, slug, origin, f, i),
            )
            &&& s.1 <==> exists|j: int|
                0 <= j < k && is_author(trim(#[trigger] items[j])) && has_username(trim(items[j]))
        }),
    decreases k,
{
    reveal(Seq::filter);
    let items = split(f.value, ',');
    let pred = |i: int| !is_author(trim(items[i]));
    let msg = |i: int| unrecognized_author_message(level, slug, origin, f, i);
    let t = Seq::new(k as nat, |i: int| i);
    if k > 0 {
        lemma_author_scan_exact(level, slug, origin, f, k - 1);
        assert(t.drop_last() =~= Seq::new((k - 1) as nat, |i: int| i));
        assert(t.last() == k - 1);
        let sub = t.drop_last().filter(pred);
        assert(t.filter(pred) == if pred(t.last()) {
            sub.push(t.last())
        } else {
            sub
        });
        assert(sub.push(t.last()).map_values(msg) =~= sub.map_values(msg).push(msg(t.last())));
        let p = author_scan(level, slug, origin, f, k - 1);
        let s = author_scan(level, slug, origin, f, k);
        if s.1 {
            if !p.1 {
                assert(is_author(trim(items[k - 1])) && has_username(trim(items[k - 1])));
            }
        }
        if exists|j: int| 0 <= j < k && is_author(trim(#[trigger] items[j])) && has_username(trim(items[j])) {
            let j = choose|j: int| 0 <= j < k && is_author(trim(#[trigger] items[j])) && has_username(trim(items[j]));
            if j < k - 1 {
                assert(p.1);
            }
        }
    } else {
        assert(t =~= Seq::<int>::empty());
        assert(t.filter(pred) =~= Seq::<int>::empty());
        assert(t.filter(pred).map_values(msg) =~= Seq::<MessageView>::empty());
    }
}

/// With the header present and the four forms compiling, the lint raises,
/// in order, one message for each item that is in none of the forms, wherever
/// it stands, then one more exactly when no item that is an author gives a
/// GitHub username.
pub proof fn law_author_exact(lint: Author, slug: Seq<char>, ctx: &Context)
    ensures
        match find_field(ctx.preamble@, lint.0@) {
            None => lint.spec_lint(slug, ctx) == Ok::<Seq<MessageView>, Seq<char>>(seq![]),
            Some(f) => first_bad_pattern() is None ==> {
                let items = split(f.value, ',');
                let level = ctx.annotation_level;
                let origin = ctx.origin_view();
                let bad = Seq::new(items.len(), |i: int| i).filter(|i: int| !is_author(trim(items[i]))).map_values(
                    |i: int| unrecognized_author_message(level, slug, origin, f, i),
                );
                let named = exists|j: int|
                    0 <= j < items.len() && is_author(trim(#[trigger] items[j])) && has_username(trim(items[j]));
                lint.spec_lint(slug, ctx) == Ok::<Seq<MessageView>, Seq<char>>(
                    bad + if named {
                        seq![]
                    } else {
                        seq![
                            lint_message(
                                level,
                                slug,
                                "preamble header `"@ + lint.0@ + "` must contain at least one GitHub username"@,
                                seq![field_snippet_spec(f, origin, seq![])],
                                seq![],
                            ),
                        ]
                    },
                )
            },
        },
{
    if let Some(f) = find_field(ctx.preamble@, lint.0@) {
        lemma_author_scan_exact(ctx.annotation_level, slug, ctx.origin_view(), f, split(f.value, ',').len() as int);
    }
}

} // verus!
