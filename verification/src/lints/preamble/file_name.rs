//! A proposal's file name must follow from one of its headers.

use vstd::prelude::*;

use crate::lints::{
    field_snippet1, field_snippet_spec, get_field, lint_message, new_message, no_messages,
    value_span, value_span_spec, vec1, Context,
};
use crate::preamble::find_field;
use crate::snippets::{footer, opt_view, FooterView, Level, Message, MessageView};
use crate::text::{chars_eq, chars_of, concat, concat3, string_of, trim, trim_str};

verus! {

/// The position of the last `/` among the first `k` characters.
pub open spec fn last_slash(p: Seq<char>, k: int) -> Option<int>
    decreases k,
{
    if k <= 0 {
        None
    } else if p[k - 1] == '/' {
        Some(k - 1)
    } else {
        last_slash(p, k - 1)
    }
}

/// The file name of the first `k` characters of a `/`-separated path, as
/// `std::path::Path::file_name` gives it on Unix: the last component that
/// is neither empty nor `.`, unless that is `..`; none when there is no
/// such component.
pub open spec fn path_file_name(p: Seq<char>, k: int) -> Option<Seq<char>>
    decreases k,
{
    if k <= 0 {
        None
    } else {
        let j = last_slash(p, k);
        let start = match j {
            Some(j) => j + 1,
            None => 0,
        };
        let seg = p.subrange(start, k);
        if seg.len() == 0 || seg == "."@ {
            match j {
                Some(j) => if 0 <= j < k {
                    path_file_name(p, j)
                } else {
                    None
                },
                None => None,
            }
        } else if seg == ".."@ {
            None
        } else {
            Some(seg)
        }
    }
}

/// The position just after the last `/` among the first `k` characters
/// (0 when there is none).
fn segment_start(c: &Vec<char>, k: usize) -> (j: usize)
    requires
        k <= c@.len(),
    ensures
        j <= k,
        match last_slash(c@, k as int) {
            Some(s) => j == s + 1,
            None => j == 0,
        },
{
    let mut j = k;
    while j > 0 && c[j - 1] != '/'
        invariant
            j <= k <= c@.len(),
            last_slash(c@, k as int) == last_slash(c@, j as int),
        decreases j,
    {
        j -= 1;
    }
    j
}

/// The file name of a `/`-separated path (see `path_file_name`).
fn file_name_of(path: &str) -> (r: Option<String>)
    ensures
        opt_view(r) == path_file_name(path@, path@.len() as int),
{
    let c = chars_of(path);
    let dot = chars_of(".");
    let dots = chars_of("..");
    let mut k = c.len();
    proof {
        reveal_strlit(".");
        reveal_strlit("..");
    }
    loop
        invariant
            c@ == path@,
            dot@ == "."@,
            dots@ == ".."@,
            k <= c@.len(),
            path_file_name(c@, c@.len() as int) == path_file_name(c@, k as int),
        decreases k,
    {
        if k == 0 {
            return None;
        }
        let j = segment_start(&c, k);
        let seg = vstd::slice::slice_subrange(c.as_slice(), j, k);
        if seg.len() == 0 || chars_eq(seg, dot.as_slice()) {
            if j == 0 {
                return None;
            }
            k = j - 1;
        } else if chars_eq(seg, dots.as_slice()) {
            return None;
        } else {
            return Some(string_of(seg));
        }
    }
}

/// The file a proposal was read from must be named `prefix`, the trimmed
/// value of the named header, then `suffix`.
#[derive(Debug, Clone)]
pub struct FileName {
    pub name: String,
    pub prefix: String,
    pub suffix: String,
}

impl FileName {
    /// The file name the proposal should have, given its header.
    pub open spec fn expected(&self, value: Seq<char>) -> Seq<char> {
        self.prefix@ + trim(value) + self.suffix@
    }

    /// Whether, when the named header is there and the proposal has an
    /// origin, the origin ends in a file name.
    pub open spec fn origin_has_file_name(&self, ctx: &Context) -> bool {
        find_field(ctx.preamble@, self.name@) is Some ==> (ctx.origin_view() matches Some(o) ==> path_file_name(o, o.len() as int) is Some)
    }

    /// One message when the header is present, the proposal has an origin,
    /// and the origin's file name is not the expected one; a footer gives
    /// the expected name.
    pub open spec fn spec_lint(&self, slug: Seq<char>, ctx: &Context) -> Seq<MessageView> {
        let level = ctx.annotation_level;
        match find_field(ctx.preamble@, self.name@) {
            None => seq![],
            Some(f) => match ctx.origin_view() {
                None => seq![],
                Some(o) => if path_file_name(o, o.len() as int) == Some(self.expected(f.value)) {
                    seq![]
                } else {
                    seq![
                        lint_message(
                            level,
                            slug,
                            "file name must reflect the preamble header `"@ + self.name@ + "`"@,
                            seq![field_snippet_spec(f, ctx.origin_view(), seq![value_span_spec(level, f, "this value"@)])],
                            seq![FooterView { level: Level::Help, title: "this file's name should be `"@ + self.expected(f.value) + "`"@ }],
                        ),
                    ]
                },
            },
        }
    }

    /// Checks the file name; when the header is there, the origin, if any,
    /// must end in a file name.
    pub fn lint(&self, slug: &str, ctx: &Context) -> (r: Vec<Message>)
        requires
            ctx.wf(),
            self.origin_has_file_name(ctx),
        ensures
            r@.map_values(|m: Message| m@) == self.spec_lint(slug@, ctx),
    {
        let field = match get_field(ctx, self.name.as_str()) {
            None => return no_messages(),
            Some(f) => f,
        };
        let file_name = match ctx.origin() {
            None => return no_messages(),
            Some(o) => match file_name_of(o.as_str()) {
                Some(n) => n,
                None => return no_messages(),
            },
        };
        let value = string_of(trim_str(field.value()).as_slice());
        let expected = concat3(self.prefix.as_str(), value.as_str(), self.suffix.as_str());
        let a = chars_of(file_name.as_str());
        let b = chars_of(expected.as_str());
        if chars_eq(a.as_slice(), b.as_slice()) {
            return no_messages();
        }
        let level = ctx.annotation_level();
        let title = concat3("file name must reflect the preamble header `", self.name.as_str(), "`");
        let foot = footer(Level::Help, concat3("this file's name should be `", expected.as_str(), "`"));
        let ghost fv = foot@;
        let snip = field_snippet1(field, ctx.origin(), value_span(level, field, "this value"));
        let ghost sv = snip@;
        let m = new_message(level, slug, title, vec1(snip), vec1(foot));
        let r = vec1(m);
        proof {
            reveal_strlit("file name must reflect the preamble header `");
            reveal_strlit("`");
            reveal_strlit("this file's name should be `");
            reveal_strlit("this value");
            assert(m@.snippets =~= seq![sv]);
            assert(m@.footers =~= seq![fv]);
            assert(r@.map_values(|m: Message| m@) =~= self.spec_lint(slug@, ctx));
        }
        r
    }

    /// Checks the file name, or gives none when the header is there and the
    /// proposal's origin does not end in a file name.
    pub fn lint_checked(&self, slug: &str, ctx: &Context) -> (r: Option<Vec<Message>>)
        requires
            ctx.wf(),
        ensures
            r is None <==> !self.origin_has_file_name(ctx),
            r matches Some(v) ==> v@.map_values(|m: Message| m@) == self.spec_lint(slug@, ctx),
    {
        if get_field(ctx, self.name.as_str()).is_some() {
            if let Some(o) = ctx.origin() {
                if file_name_of(o.as_str()).is_none() {
                    return None;
                }
            }
        }
        Some(self.lint(slug, ctx))
    }
}

} // verus!
