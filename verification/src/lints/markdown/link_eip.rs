//! The text of a link to a proposal must name the proposal it links to.

use vstd::prelude::*;

use crate::lints::markdown::{node_in_source, source_for_text_spec};
use crate::lints::{lint_message, new_message, result_view, vec1, Context, Error};
use crate::pattern::{
    captures, compile, escape, escaped, groups_view, is_match, regex_captures, regex_compiles, regex_error,
    regex_matches, regex_replaced, replace_all, CaptureView, Pattern,
};
use crate::snippets::{footer, FooterView, Level, Message, MessageView, SnippetView};
use crate::text::{chars_of, concat, concat3, concat5, string_of, to_upper, upper_case};
use crate::tree::{is_ancestor, Node, NodeKind};

verus! {

/// Links whose address matches the pattern (group 1: the repository's
/// prefix, group 2: the number, group 4: a section) must have text of the
/// form `EIP-N` (or `ERC-N`), followed by a description when the address
/// names a section.
#[derive(Debug, Clone)]
pub struct LinkEip(pub String);

/// The address of a link.
pub open spec fn link_url(n: Node) -> Option<Seq<char>> {
    match n.value {
        NodeKind::Link { url, title } => Some(url@),
        _ => None,
    }
}

/// The walk leaves link `j` between node `i` and the next: `j` is `i` or
/// an ancestor of it, and not an ancestor of the next node.
pub open spec fn leaves(b: Seq<Node>, i: int, j: int) -> bool {
    &&& link_url(b[j]) is Some
    &&& (j == i || is_ancestor(b, j, i))
    &&& !(i + 1 < b.len() && is_ancestor(b, j, i + 1))
}

/// The number of links among nodes `k..=i` that the walk leaves after
/// node `i`.
pub open spec fn leaves_from(b: Seq<Node>, i: int, k: int) -> nat
    decreases i + 1 - k,
{
    if k > i || k < 0 {
        0
    } else {
        (if leaves(b, i, k) { 1nat } else { 0nat }) + leaves_from(b, i, k + 1)
    }
}

/// Group `k` of the first match of `pattern` in `text`, or nothing.
pub open spec fn group_text(pattern: Seq<char>, text: Seq<char>, k: int) -> Seq<char> {
    let caps = regex_captures(pattern, text);
    if caps.len() > 0 && caps[0].len() > k && caps[0][k] is Some {
        caps[0][k]->0.text
    } else {
        seq![]
    }
}

/// A text with its first character in ASCII upper case, when it is ASCII.
pub open spec fn first_upper(s: Seq<char>) -> Seq<char> {
    if s.len() > 0 && 'a' <= s[0] <= 'z' {
        s.update(0, ((s[0] as u32) - 32) as char)
    } else {
        s
    }
}

/// The pattern that separates the words of a section's name.
pub open spec fn separator_pattern() -> Seq<char> {
    "[-_]"@
}

/// What the walk has when it has seen the first nodes: how many matching
/// links it is in, the last matching link's address, and the messages (or
/// the error that stopped it).
pub struct EipScan {
    pub depth: nat,
    pub url: Seq<char>,
    pub msgs: Result<Seq<MessageView>, Seq<char>>,
}

impl LinkEip {
    /// The pattern the text of a link to `url` must match.
    pub open spec fn text_pattern(&self, url: Seq<char>) -> Seq<char> {
        let number = group_text(self.0@, url, 2);
        if group_text(self.0@, url, 4).len() > 0 {
            "^(EIP|ERC)-"@ + escaped(number) + "(\\s*\\S+)"@
        } else {
            "^(EIP|ERC)-"@ + escaped(number) + "$"@
        }
    }

    /// The link that the text of a link to `url` should be.
    pub open spec fn expected(&self, url: Seq<char>) -> Seq<char> {
        let head = "["@ + upper_case(group_text(self.0@, url, 1)) + group_text(self.0@, url, 2);
        let section = group_text(self.0@, url, 4);
        if section.len() > 0 {
            head + ": "@ + first_upper(regex_replaced(separator_pattern(), section, " "@)) + "]("@ + url + ")"@
        } else {
            head + "]("@ + url + ")"@
        }
    }

    /// What checking the text `t` of node `n`, in a link to `url`, gives.
    pub open spec fn check_spec(&self, ctx: &Context, slug: Seq<char>, n: Node, url: Seq<char>, t: Seq<char>) -> Result<Seq<MessageView>, Seq<char>> {
        let p = self.text_pattern(url);
        if !regex_compiles(p) {
            Err(regex_error(p))
        } else if regex_matches(p, t) {
            Ok(seq![])
        } else if group_text(self.0@, url, 4).len() > 0 && !regex_compiles(separator_pattern()) {
            Err(regex_error(separator_pattern()))
        } else {
            Ok(
                seq![
                    lint_message(
                        ctx.annotation_level,
                        slug,
                        "link text does not match link destination"@,
                        seq![
                            SnippetView {
                                source: source_for_text_spec(ctx, n.start_line as int, t),
                                line_start: n.start_line as int,
                                origin: ctx.origin_view(),
                                fold: false,
                                annotations: seq![],
                            },
                        ],
                        seq![FooterView { level: Level::Help, title: "use `"@ + self.expected(url) + "` instead"@ }],
                    ),
                ],
            )
        }
    }

    /// The walk over the first `k` nodes.
    pub open spec fn scan_spec(&self, ctx: &Context, slug: Seq<char>, k: int) -> EipScan
        decreases k,
    {
        if k <= 0 {
            EipScan { depth: 0, url: seq![], msgs: Ok(seq![]) }
        } else {
            let p = self.scan_spec(ctx, slug, k - 1);
            if p.msgs is Err {
                p
            } else {
                let b = ctx.body@;
                let i = k - 1;
                let entered = link_url(b[i]) matches Some(u) && regex_matches(self.0@, u);
                let d1 = if entered { p.depth + 1 } else { p.depth };
                let u1 = if entered { link_url(b[i])->0 } else { p.url };
                let r = match b[i].value {
                    NodeKind::Text(t) => if d1 > 0 { self.check_spec(ctx, slug, b[i], u1, t@) } else { Ok(seq![]) },
                    _ => Ok(seq![]),
                };
                let c = leaves_from(b, i, 0);
                let d2: nat = if d1 >= c { (d1 - c) as nat } else { 0 };
                match r {
                    Err(e) => EipScan { depth: d2, url: u1, msgs: Err(e) },
                    Ok(m) => EipScan { depth: d2, url: u1, msgs: Ok(p.msgs->Ok_0 + m) },
                }
            }
        }
    }

    /// An error when the pattern (or a pattern built from an address)
    /// does not compile; otherwise a message for each text in a matching
    /// link that does not name the linked proposal, suggesting the link to
    /// write instead.
    pub open spec fn spec_lint(&self, slug: Seq<char>, ctx: &Context) -> Result<Seq<MessageView>, Seq<char>> {
        if !regex_compiles(self.0@) {
            Err(regex_error(self.0@))
        } else {
            self.scan_spec(ctx, slug, ctx.body@.len() as int).msgs
        }
    }

    pub fn lint(&self, slug: &str, ctx: &Context) -> (r: Result<Vec<Message>, Error>)
        requires
            ctx.body_wf(),
        ensures
            result_view(r) == self.spec_lint(slug@, ctx),
    {
        let re = match compile(self.0.as_str()) {
            Ok(re) => re,
            Err(message) => return Err(Error::Custom { message }),
        };
        let b = &ctx.body;
        let mut msgs: Vec<Message> = Vec::new();
        let mut depth: usize = 0;
        let mut url = String::new();
        let mut i: usize = 0;
        assert(msgs@.map_values(|m: Message| m@) =~= Seq::<MessageView>::empty());
        assert(url@ =~= Seq::<char>::empty());
        while i < b.len()
            invariant
                ctx.body_wf(),
                b == &ctx.body,
                re@ == self.0@,
                regex_compiles(self.0@),
                i <= b@.len(),
                depth <= i,
                ({
                    let s = self.scan_spec(ctx, slug@, i as int);
                    &&& s.msgs == Ok::<Seq<MessageView>, Seq<char>>(msgs@.map_values(|m: Message| m@))
                    &&& s.depth == depth
                    &&& s.url == url@
                }),
            decreases b@.len() - i,
        {
            let n = &b[i];
            assert(node_in_source(ctx, ctx.body@[i as int]));
            if let NodeKind::Link { url: u, title } = &n.value {
                if is_match(&re, u.as_str()) {
                    url = u.clone();
                    depth = depth + 1;
                }
            }
            if let NodeKind::Text(t) = &n.value {
                if depth > 0 {
                    match self.check(slug, ctx, &re, n, url.as_str(), t.as_str()) {
                        Err(e) => {
                            proof {
                                assert(self.scan_spec(ctx, slug@, i + 1).msgs == result_view(Err::<Vec<Message>, Error>(e)));
                                self.lemma_scan_err(ctx, slug@, i + 1, ctx.body@.len() as int);
                            }
                            return Err(e);
                        },
                        Ok(more) => {
                            let mut more = more;
                            let ghost before = msgs@.map_values(|m: Message| m@);
                            let ghost extra = more@.map_values(|m: Message| m@);
                            msgs.append(&mut more);
                            assert(msgs@.map_values(|m: Message| m@) =~= before + extra);
                        },
                    }
                }
            }
            let c = leaving(b, i);
            depth = if depth >= c { depth - c } else { 0 };
            i += 1;
        }
        Ok(msgs)
    }

    /// Once the walk stops on an error, it keeps it.
    pub proof fn lemma_scan_err(&self, ctx: &Context, slug: Seq<char>, k: int, m: int)
        requires
            0 <= k <= m,
            self.scan_spec(ctx, slug, k).msgs is Err,
        ensures
            self.scan_spec(ctx, slug, m).msgs == self.scan_spec(ctx, slug, k).msgs,
        decreases m - k,
    {
        if k < m {
            self.lemma_scan_err(ctx, slug, k, m - 1);
        }
    }

    /// Checks the text `t` of node `n`, in a link to `url`.
    fn check(&self, slug: &str, ctx: &Context, re: &Pattern, n: &Node, url: &str, t: &str) -> (r: Result<Vec<Message>, Error>)
        requires
            re@ == self.0@,
            node_in_source(ctx, *n),
        ensures
            result_view(r) == self.check_spec(ctx, slug@, *n, url@, t@),
    {
        let number = group(re, url, 2);
        let section = group(re, url, 4);
        let esc = escape(number.as_str());
        let pattern = if section.as_str().is_empty() {
            concat3("^(EIP|ERC)-", esc.as_str(), "$")
        } else {
            concat3("^(EIP|ERC)-", esc.as_str(), "(\\s*\\S+)")
        };
        proof {
            reveal_strlit("^(EIP|ERC)-");
            reveal_strlit("$");
            reveal_strlit("(\\s*\\S+)");
            reveal_strlit("");
        }
        assert(pattern@ == self.text_pattern(url@));
        let text_re = match compile(pattern.as_str()) {
            Ok(p) => p,
            Err(message) => return Err(Error::Custom { message }),
        };
        if is_match(&text_re, t) {
            return Ok(crate::lints::no_messages());
        }
        let expected = match self.expected_of(re, url) {
            Ok(e) => e,
            Err(message) => return Err(Error::Custom { message }),
        };
        let source = ctx.source_for_text(n.start_line, t);
        let snip = crate::snippets::snippet(source.as_str(), n.start_line, ctx.origin(), false, Vec::new());
        assert(snip@.annotations =~= seq![]);
        let ghost sv = snip@;
        let foot = footer(Level::Help, concat3("use `", expected.as_str(), "` instead"));
        let ghost fv = foot@;
        let m = new_message(ctx.annotation_level(), slug, String::from_str("link text does not match link destination"), vec1(snip), vec1(foot));
        proof {
            reveal_strlit("link text does not match link destination");
            reveal_strlit("use `");
            reveal_strlit("` instead");
            assert(m@.snippets =~= seq![sv]);
            assert(m@.footers =~= seq![fv]);
        }
        let r = vec1(m);
        assert(r@.map_values(|m: Message| m@) =~= seq![m@]);
        Ok(r)
    }

    /// The link that the text of a link to `url` should be.
    fn expected_of(&self, re: &Pattern, url: &str) -> (r: Result<String, String>)
        requires
            re@ == self.0@,
        ensures
            match r {
                Ok(e) => (group_text(self.0@, url@, 4).len() == 0 || regex_compiles(separator_pattern())) && e@ == self.expected(url@),
                Err(e) => group_text(self.0@, url@, 4).len() > 0 && !regex_compiles(separator_pattern()) && e@ == regex_error(separator_pattern()),
            },
    {
        let prefix = group(re, url, 1);
        let number = group(re, url, 2);
        let section = group(re, url, 4);
        let upper = to_upper(prefix.as_str());
        let head = concat3("[", upper.as_str(), number.as_str());
        proof {
            reveal_strlit("[");
            reveal_strlit("](");
            reveal_strlit(")");
            reveal_strlit(": ");
            reveal_strlit(" ");
            reveal_strlit("[-_]");
            reveal_strlit("");
        }
        if section.as_str().is_empty() {
            let tail = concat(url, ")");
            let r = concat3(head.as_str(), "](", tail.as_str());
            assert(r@ =~= head@ + "]("@ + url@ + ")"@);
            return Ok(r);
        }
        let sep = match compile("[-_]") {
            Ok(p) => p,
            Err(e) => return Err(e),
        };
        let words = replace_all(&sep, section.as_str(), " ");
        let described = first_upper_of(words.as_str());
        let tail = concat3("](", url, ")");
        let r = concat5(head.as_str(), ": ", described.as_str(), tail.as_str(), "");
        assert(r@ =~= head@ + ": "@ + described@ + "]("@ + url@ + ")"@);
        Ok(r)
    }
}

/// Group `k` of the first match of the pattern in `text`, or nothing.
fn group(re: &Pattern, text: &str, k: usize) -> (r: String)
    ensures
        r@ == group_text(re@, text@, k as int),
{
    let caps = captures(re, text);
    if caps.len() == 0 {
        return String::new();
    }
    let g = &caps[0];
    assert(groups_view(g@) == regex_captures(re@, text@)[0]);
    if g.len() <= k {
        return String::new();
    }
    assert(regex_captures(re@, text@)[0][k as int] == crate::pattern::opt_capture_view(g@[k as int]));
    match &g[k] {
        Some(c) => c.text.clone(),
        None => String::new(),
    }
}

/// A text with its first character in ASCII upper case, when it is ASCII.
fn first_upper_of(s: &str) -> (r: String)
    ensures
        r@ == first_upper(s@),
{
    let mut c = chars_of(s);
    if c.len() > 0 && 'a' <= c[0] && c[0] <= 'z' {
        let v = c[0];
        let up = upper_ascii(v);
        c.set(0, up);
        assert(c@ =~= s@.update(0, ((v as u32) - 32) as char));
    }
    string_of(c.as_slice())
}

/// An ASCII lower-case letter in upper case.
fn upper_ascii(c: char) -> (r: char)
    requires
        'a' <= c <= 'z',
    ensures
        r == ((c as u32) - 32) as char,
{
    let letters = ['A', 'B', 'C', 'D', 'E', 'F', 'G', 'H', 'I', 'J', 'K', 'L', 'M', 'N', 'O', 'P', 'Q', 'R', 'S', 'T', 'U', 'V', 'W', 'X', 'Y', 'Z'];
    let i = (c as u32 - 97) as usize;
    proof {
        assert(letters@ == seq!['A', 'B', 'C', 'D', 'E', 'F', 'G', 'H', 'I', 'J', 'K', 'L', 'M', 'N', 'O', 'P', 'Q', 'R', 'S', 'T', 'U', 'V', 'W', 'X', 'Y', 'Z']);
    }
    letters[i]
}

/// The number of links the walk leaves between node `i` and the next.
fn leaving(b: &Vec<Node>, i: usize) -> (r: usize)
    requires
        i < b@.len(),
    ensures
        r == leaves_from(b@, i as int, 0),
        r <= i + 1,
{
    let len = b.len();
    let next: Option<usize> = if i < len - 1 { Some(b[i + 1].depth) } else { None };
    let mut count: usize = match (&b[i].value, next) {
        (NodeKind::Link { .. }, Some(d)) => if d > b[i].depth { 0 } else { 1 },
        (NodeKind::Link { .. }, None) => 1,
        _ => 0,
    };
    proof {
        assert(leaves_from(b@, i as int, i + 1) == 0);
        if i + 1 < b@.len() {
            assert(is_ancestor(b@, i as int, i + 1) == (b@[i + 1].depth > b@[i as int].depth));
        }
    }
    let mut m: usize = b[i].depth;
    let mut k: usize = i;
    while k > 0
        invariant
            0 <= k <= i < b@.len(),
            len == b@.len(),
            next == (if i + 1 < b@.len() { Some(b@[i + 1].depth) } else { None::<usize> }),
            forall|t: int| k <= t <= i ==> b@[t].depth >= m,
            exists|t: int| k <= t <= i && b@[t].depth == m,
            count == leaves_from(b@, i as int, k as int),
            count <= i + 1 - k,
        decreases k,
    {
        let j = k - 1;
        let d = b[j].depth;
        proof {
            let w = choose|t: int| k <= t <= i && b@[t].depth == m;
            if is_ancestor(b@, j as int, i as int) {
                assert(b@[w].depth > b@[j as int].depth);
            }
            if d < m {
                assert forall|t: int| j < t <= i implies #[trigger] b@[t].depth > b@[j as int].depth by {}
                assert(is_ancestor(b@, j as int, i as int));
                if i + 1 < b@.len() {
                    if b@[i + 1].depth > d {
                        assert forall|t: int| j < t <= i + 1 implies #[trigger] b@[t].depth > b@[j as int].depth by {}
                        assert(is_ancestor(b@, j as int, i + 1));
                    } else {
                        assert(!is_ancestor(b@, j as int, i + 1));
                    }
                }
            }
        }
        if d < m {
            let is_link = match &b[j].value {
                NodeKind::Link { .. } => true,
                _ => false,
            };
            let stays = match next {
                Some(nd) => nd > d,
                None => false,
            };
            if is_link && !stays {
                count = count + 1;
            }
            m = d;
        }
        k = j;
    }
    count
}

} // verus!
