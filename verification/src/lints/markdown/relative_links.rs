//! Links and images must use relative addresses.

use vstd::prelude::*;
use vstd::multiset::Multiset;

use crate::collate::sorted_strings;
use crate::snippets::opt_view;

use crate::lints::markdown::{ast_snippet_spec, node_in_source};
use crate::lints::{lint_message, new_message, result_view, strings_view, vec1, Context, Error};
use crate::pattern::{
    any_matches, captures, compile, compile_set, groups_view, is_match, regex_captures, regex_compiles,
    regex_error, regex_matches, regex_set_compiles, regex_set_error, set_is_match, Pattern, PatternSet,
};
use crate::search::occurrences;
use crate::snippets::{footer, Footer, FooterView, Level, Message, MessageView};
use crate::text::{blen, chars_of, concat, concat3};
use crate::tree::{Node, NodeKind};

verus! {

/// What `scraper::Html::parse_fragment` makes of an HTML text: for each
/// node of the tree, in order, for an element its name, its `id`, and the
/// names and the values of its attributes (counted with repeats, in no
/// order: `scraper` keeps them in a hash map), or nothing for a node of
/// another kind.
pub uninterp spec fn html_elements_of(html: Seq<char>) -> Seq<Option<(Seq<char>, Option<Seq<char>>, Multiset<Seq<char>>, Multiset<Seq<char>>)>>;

/// An element as plain text.
pub open spec fn element_view(e: Option<(String, Option<String>, Vec<String>, Vec<String>)>) -> Option<(Seq<char>, Option<Seq<char>>, Multiset<Seq<char>>, Multiset<Seq<char>>)> {
    match e {
        Some(x) => Some((x.0@, opt_view(x.1), strings_view(x.2@).to_multiset(), strings_view(x.3@).to_multiset())),
        None => None,
    }
}

/// Parses an HTML fragment with `scraper` and gives, for each node of the
/// tree in order, the name, the `id` and the attribute names and values of
/// an element (`scraper::node::Element::name`, `id` and `attrs`), or nothing
/// for a node of another kind.
#[verifier::external_body]
fn html_elements(html: &str) -> (r: Vec<Option<(String, Option<String>, Vec<String>, Vec<String>)>>)
    ensures
        r@.map_values(|e: Option<(String, Option<String>, Vec<String>, Vec<String>)>| element_view(e)) == html_elements_of(html@),
{
    scraper::Html::parse_fragment(html).tree.nodes().map(|n| match n.value() {
        scraper::Node::Element(e) => Some((
            e.name().to_string(),
            e.id().map(|i| i.to_string()),
            e.attrs().map(|a| a.0.to_string()).collect(),
            e.attrs().map(|a| a.1.to_string()).collect(),
        )),
        _ => None,
    }).collect()
}

/// The code of a character in ASCII lower case.
pub open spec fn ascii_lower(c: char) -> u32 {
    if 'A' <= c <= 'Z' {
        ((c as u32) + 32) as u32
    } else {
        c as u32
    }
}

/// Two texts are equal when ASCII letters are compared without case
/// (`str::eq_ignore_ascii_case`).
pub open spec fn eq_ignore_ascii_case(a: Seq<char>, b: Seq<char>) -> bool {
    a.len() == b.len() && forall|i: int| 0 <= i < a.len() ==> ascii_lower(#[trigger] a[i]) == ascii_lower(b[i])
}

/// An element that styles the page: a `style` element, one whose `id` is
/// `style`, or one with a `style` attribute.
pub open spec fn styles(name: Seq<char>, id: Option<Seq<char>>, names: Multiset<Seq<char>>) -> bool {
    ||| eq_ignore_ascii_case(name, "style"@)
    ||| (id matches Some(v) && eq_ignore_ascii_case(v, "style"@))
    ||| exists|a: Seq<char>| names.count(a) > 0 && #[trigger] eq_ignore_ascii_case(a, "style"@)
}

/// The addresses in the first `k` nodes of an HTML tree: every attribute
/// value of every element, element by element, and the values of one
/// element in sorted order; nothing when an element styles the page.
pub open spec fn html_addresses(nodes: Seq<Option<(Seq<char>, Option<Seq<char>>, Multiset<Seq<char>>, Multiset<Seq<char>>)>>, k: int) -> Option<Seq<Seq<char>>>
    decreases k,
{
    if k <= 0 {
        Some(seq![])
    } else {
        match html_addresses(nodes, k - 1) {
            None => None,
            Some(prev) => match nodes[k - 1] {
                None => Some(prev),
                Some(e) => if styles(e.0, e.1, e.2) {
                    None
                } else {
                    Some(prev + sorted_strings(e.3))
                },
            },
        }
    }
}

/// The addresses of a node: that of a link or an image, or those of the
/// elements of HTML; nothing when the HTML styles the page.
pub open spec fn node_addresses(n: Node) -> Option<Seq<Seq<char>>> {
    match n.value {
        NodeKind::Link { url, title } => Some(seq![url@]),
        NodeKind::Image { url, title } => Some(seq![url@]),
        NodeKind::HtmlBlock(h) => html_addresses(html_elements_of(h@), html_elements_of(h@).len() as int),
        NodeKind::HtmlInline(h) => html_addresses(html_elements_of(h@), html_elements_of(h@).len() as int),
        _ => Some(seq![]),
    }
}

/// The addresses of the first `k` nodes, each with its node's index;
/// nothing when HTML among them styles the page.
pub open spec fn collected(b: Seq<Node>, k: int) -> Option<Seq<(int, Seq<char>)>>
    decreases k,
{
    if k <= 0 {
        Some(seq![])
    } else {
        match collected(b, k - 1) {
            None => None,
            Some(prev) => match node_addresses(b[k - 1]) {
                None => None,
                Some(a) => Some(prev + a.map_values(|x: Seq<char>| (k - 1, x))),
            },
        }
    }
}

/// An address that is not relative: it starts with `/` or holds `://`.
pub open spec fn absolute_pattern() -> Seq<char> {
    "(^/)|(://)"@
}

/// An address of a proposal, or of an asset, on the proposals' site.
pub open spec fn site_pattern() -> Seq<char> {
    "^(https?:)?//(?:eips|ercs)\\.ethereum\\.org/(?:EIPS|ERCS)/(?:eip|erc)-(\\d+)|(assets/.+)$"@
}

/// The text that marks the public domain dedication.
pub open spec fn cc0_text() -> Seq<char> {
    "//creativecommons.org/publicdomain/zero/1.0/"@
}

/// The relative address to suggest for `address`, if there is one.
pub open spec fn suggestion(address: Seq<char>) -> Option<Seq<char>> {
    let caps = regex_captures(site_pattern(), address);
    if caps.len() > 0 {
        let g = caps[0];
        if g.len() > 2 && g[2] is Some {
            Some("./eip-"@ + g[2]->0.text + ".md"@)
        } else if g.len() > 3 && g[3] is Some {
            Some("../"@ + g[3]->0.text)
        } else {
            None
        }
    } else if occurrences(address, cc0_text(), 0).len() > 0 {
        Some("../LICENSE.md"@)
    } else {
        None
    }
}

/// Links and images (and the attributes of HTML elements) must use
/// relative addresses, but for those that match one of the exceptions.
#[derive(Debug, Clone)]
pub struct RelativeLinks {
    pub exceptions: Vec<String>,
}

impl RelativeLinks {
    /// The address is not relative and is not an exception.
    pub open spec fn flagged(&self, address: Seq<char>) -> bool {
        regex_matches(absolute_pattern(), address) && !any_matches(strings_view(self.exceptions@), address)
    }

    /// The message for an address in node `n`.
    pub open spec fn address_message(&self, ctx: &Context, slug: Seq<char>, n: Node, address: Seq<char>) -> MessageView {
        lint_message(
            ctx.annotation_level,
            slug,
            "non-relative link or image"@,
            seq![ast_snippet_spec(ctx, n, ctx.annotation_level, Some("used here"@))],
            match suggestion(address) {
                Some(s) => seq![FooterView { level: Level::Help, title: "use `"@ + s + "` instead"@ }],
                None => seq![],
            },
        )
    }

    /// The messages for the first `k` collected addresses.
    pub open spec fn address_messages(&self, ctx: &Context, slug: Seq<char>, links: Seq<(int, Seq<char>)>, k: int) -> Seq<MessageView>
        decreases k,
    {
        if k <= 0 {
            seq![]
        } else {
            let prev = self.address_messages(ctx, slug, links, k - 1);
            let (i, a) = links[k - 1];
            if self.flagged(a) {
                prev.push(self.address_message(ctx, slug, ctx.body@[i], a))
            } else {
                prev
            }
        }
    }

    /// An error when a pattern (or the set of exceptions) does not compile,
    /// or when HTML in the body styles the page; otherwise a message for
    /// each address that is not relative and not an exception, in order,
    /// suggesting a relative one where there is one.
    pub open spec fn spec_lint(&self, slug: Seq<char>, ctx: &Context) -> Result<Seq<MessageView>, Seq<char>> {
        if !regex_compiles(absolute_pattern()) {
            Err(regex_error(absolute_pattern()))
        } else if !regex_compiles(site_pattern()) {
            Err(regex_error(site_pattern()))
        } else if !regex_set_compiles(strings_view(self.exceptions@)) {
            Err(regex_set_error(strings_view(self.exceptions@)))
        } else {
            match collected(ctx.body@, ctx.body@.len() as int) {
                None => Err("Unsupported"@),
                Some(links) => Ok(self.address_messages(ctx, slug, links, links.len() as int)),
            }
        }
    }

    pub fn lint(&self, slug: &str, ctx: &Context) -> (r: Result<Vec<Message>, Error>)
        requires
            ctx.body_wf(),
        ensures
            result_view(r) == self.spec_lint(slug@, ctx),
    {
        proof {
            reveal_strlit("(^/)|(://)");
            reveal_strlit("^(https?:)?//(?:eips|ercs)\\.ethereum\\.org/(?:EIPS|ERCS)/(?:eip|erc)-(\\d+)|(assets/.+)$");
        }
        let absolute = match compile("(^/)|(://)") {
            Ok(re) => re,
            Err(message) => return Err(Error::Custom { message }),
        };
        let site = match compile("^(https?:)?//(?:eips|ercs)\\.ethereum\\.org/(?:EIPS|ERCS)/(?:eip|erc)-(\\d+)|(assets/.+)$") {
            Ok(re) => re,
            Err(message) => return Err(Error::Custom { message }),
        };
        let exceptions = match compile_set(&self.exceptions) {
            Ok(set) => set,
            Err(message) => return Err(Error::Custom { message }),
        };
        let links = match collect(&ctx.body) {
            Some(l) => l,
            None => {
                proof {
                    reveal_strlit("Unsupported");
                }
                return Err(Error::Custom { message: String::from_str("Unsupported") });
            },
        };
        let ghost sl = links@.map_values(|l: (usize, String)| (l.0 as int, l.1@));
        let mut msgs: Vec<Message> = Vec::new();
        let mut j: usize = 0;
        while j < links.len()
            invariant
                ctx.body_wf(),
                absolute@ == absolute_pattern(),
                site@ == site_pattern(),
                exceptions@ == strings_view(self.exceptions@),
                Some(sl) == collected(ctx.body@, ctx.body@.len() as int),
                sl == links@.map_values(|l: (usize, String)| (l.0 as int, l.1@)),
                forall|k: int| 0 <= k < links@.len() ==> #[trigger] links@[k].0 < ctx.body@.len(),
                j <= links@.len(),
                msgs@.map_values(|m: Message| m@) == self.address_messages(ctx, slug@, sl, j as int),
            decreases links@.len() - j,
        {
            let (i, address) = (links[j].0, &links[j].1);
            assert(sl[j as int] == (i as int, address@));
            if is_match(&absolute, address.as_str()) && !set_is_match(&exceptions, address.as_str()) {
                assert(node_in_source(ctx, ctx.body@[i as int]));
                let m = self.message_for(slug, ctx, &site, &ctx.body[i], address.as_str());
                let ghost before = msgs@.map_values(|m: Message| m@);
                msgs.push(m);
                assert(msgs@.map_values(|m: Message| m@) =~= before.push(m@));
            }
            j += 1;
        }
        Ok(msgs)
    }

    /// The message for an address in node `n`.
    fn message_for(&self, slug: &str, ctx: &Context, site: &Pattern, n: &Node, address: &str) -> (r: Message)
        requires
            ctx.body_wf(),
            node_in_source(ctx, *n),
            site@ == site_pattern(),
        ensures
            r@ == self.address_message(ctx, slug@, *n, address@),
    {
        let snip = ctx.ast_snippet(n, None, Some(String::from_str("used here")));
        let ghost sv = snip@;
        let mut footers: Vec<Footer> = Vec::new();
        match suggest(site, address) {
            Some(s) => {
                let f = footer(Level::Help, concat3("use `", s.as_str(), "` instead"));
                let ghost fv = f@;
                footers.push(f);
                assert(footers@.map_values(|f: Footer| f@) =~= seq![fv]);
            },
            None => {
                assert(footers@.map_values(|f: Footer| f@) =~= Seq::<FooterView>::empty());
            },
        }
        let m = new_message(ctx.annotation_level(), slug, String::from_str("non-relative link or image"), vec1(snip), footers);
        proof {
            reveal_strlit("used here");
            reveal_strlit("use `");
            reveal_strlit("` instead");
            reveal_strlit("non-relative link or image");
            assert(m@.snippets =~= seq![sv]);
        }
        m
    }
}

/// The relative address to suggest for `address`.
fn suggest(site: &Pattern, address: &str) -> (r: Option<String>)
    requires
        site@ == site_pattern(),
    ensures
        match r {
            Some(s) => suggestion(address@) == Some(s@),
            None => suggestion(address@) is None,
        },
{
    proof {
        reveal_strlit("./eip-");
        reveal_strlit(".md");
        reveal_strlit("../");
        reveal_strlit("../LICENSE.md");
        reveal_strlit("//creativecommons.org/publicdomain/zero/1.0/");
    }
    let caps = captures(site, address);
    if caps.len() > 0 {
        let g = &caps[0];
        assert(groups_view(g@) == regex_captures(site_pattern(), address@)[0]);
        if g.len() > 2 {
            assert(regex_captures(site_pattern(), address@)[0][2] == crate::pattern::opt_capture_view(g@[2]));
            if let Some(c) = &g[2] {
                return Some(concat3("./eip-", c.text.as_str(), ".md"));
            }
        }
        if g.len() > 3 {
            assert(regex_captures(site_pattern(), address@)[0][3] == crate::pattern::opt_capture_view(g@[3]));
            if let Some(c) = &g[3] {
                return Some(concat("../", c.text.as_str()));
            }
        }
        return None;
    }
    let cc0 = "//creativecommons.org/publicdomain/zero/1.0/";
    let found = has_text(address, cc0);
    if found {
        Some(String::from_str("../LICENSE.md"))
    } else {
        None
    }
}

/// Whether `t` occurs in `s`.
fn has_text(s: &str, t: &str) -> (r: bool)
    ensures
        r == (occurrences(s@, t@, 0).len() > 0),
{
    let sc = chars_of(s);
    let tc = chars_of(t);
    let mut i: usize = 0;
    while i <= sc.len()
        invariant
            sc@ == s@,
            tc@ == t@,
            i <= sc@.len() + 1,
            (occurrences(s@, t@, 0).len() > 0) == (occurrences(s@, t@, i as int).len() > 0),
        decreases sc@.len() + 1 - i,
    {
        if tc.len() == 0 {
            return true;
        }
        if tc.len() <= sc.len() - i && crate::text::chars_eq(vstd::slice::slice_subrange(sc.as_slice(), i, i + tc.len()), tc.as_slice()) {
            return true;
        }
        if i == sc.len() {
            assert(occurrences(s@, t@, i + 1).len() == 0);
            return false;
        }
        i += 1;
    }
    false
}

/// The addresses of an HTML text; none when an element styles the page.
fn html_addresses_of(h: &str) -> (r: Option<Vec<String>>)
    ensures
        match r {
            Some(v) => html_addresses(html_elements_of(h@), html_elements_of(h@).len() as int) == Some(strings_view(v@)),
            None => html_addresses(html_elements_of(h@), html_elements_of(h@).len() as int) is None,
        },
{
    let nodes = html_elements(h);
    let ghost sn = html_elements_of(h@);
    let mut r: Vec<String> = Vec::new();
    let mut k: usize = 0;
    let mut nodes = nodes;
    let mut rev: Vec<Option<(String, Option<String>, Vec<String>, Vec<String>)>> = Vec::new();
    while nodes.len() > 0
        invariant
            nodes@.len() + rev@.len() == sn.len(),
            forall|i: int| 0 <= i < nodes@.len() ==> element_view(#[trigger] nodes@[i]) == sn[i],
            forall|i: int| 0 <= i < rev@.len() ==> element_view(#[trigger] rev@[i]) == sn[sn.len() - 1 - i],
        decreases nodes@.len(),
    {
        let ghost n0 = nodes@;
        let e = nodes.pop().unwrap();
        assert(element_view(e) == sn[n0.len() - 1]) by {
            assert(element_view(n0[n0.len() - 1]) == sn[n0.len() - 1]);
        }
        rev.push(e);
    }
    let total = rev.len();
    while rev.len() > 0
        invariant
            k + rev@.len() == sn.len(),
            total == sn.len(),
            sn == html_elements_of(h@),
            forall|i: int| 0 <= i < rev@.len() ==> element_view(#[trigger] rev@[i]) == sn[sn.len() - 1 - i],
            html_addresses(sn, k as int) == Some(strings_view(r@)),
        decreases rev@.len(),
    {
        let ghost r0 = rev@;
        let node = rev.pop().unwrap();
        assert(element_view(node) == sn[k as int]) by {
            assert(element_view(r0[r0.len() - 1]) == sn[sn.len() - 1 - (r0.len() - 1)]);
        }
        match node {
            None => {},
            Some(e) => {
                if element_styles(&e.0, &e.1, &e.2) {
                    assert(html_addresses(sn, k + 1) is None);
                    proof {
                        lemma_html_none(sn, k + 1, sn.len() as int);
                    }
                    return None;
                }
                let ghost before = strings_view(r@);
                let values = crate::collate::sort_strings(e.3);
                let mut values = values;
                let ghost vs = strings_view(values@);
                let mut tail: Vec<String> = Vec::new();
                while values.len() > 0
                    invariant
                        strings_view(tail@) + strings_view(values@).reverse() == vs.reverse(),
                    decreases values@.len(),
                {
                    let ghost v0 = strings_view(values@);
                    let x = values.pop().unwrap();
                    proof {
                        assert(v0 =~= strings_view(values@).push(x@));
                        assert(v0.reverse() =~= seq![x@] + strings_view(values@).reverse());
                        assert(strings_view(tail@).push(x@) =~= strings_view(tail@) + seq![x@]);
                    }
                    tail.push(x);
                    assert(strings_view(tail@) + strings_view(values@).reverse() =~= vs.reverse());
                }
                assert(strings_view(tail@) =~= vs.reverse());
                while tail.len() > 0
                    invariant
                        strings_view(r@) + strings_view(tail@).reverse() == before + vs,
                    decreases tail@.len(),
                {
                    let ghost t0 = strings_view(tail@);
                    let x = tail.pop().unwrap();
                    proof {
                        assert(t0 =~= strings_view(tail@).push(x@));
                        assert(t0.reverse() =~= seq![x@] + strings_view(tail@).reverse());
                    }
                    r.push(x);
                    assert(strings_view(r@) + strings_view(tail@).reverse() =~= before + vs);
                }
                assert(strings_view(tail@).reverse() =~= Seq::<Seq<char>>::empty());
                assert(strings_view(r@) =~= before + vs);
            },
        }
        k += 1;
    }
    Some(r)
}

/// Whether an element styles the page.
fn element_styles(name: &String, id: &Option<String>, names: &Vec<String>) -> (r: bool)
    ensures
        r == styles(name@, opt_view(*id), strings_view(names@).to_multiset()),
{
    broadcast use vstd::seq_lib::group_to_multiset_ensures;
    let ghost nv = strings_view(names@);
    proof {
        reveal_strlit("style");
    }
    if eq_ignore_case(name.as_str(), "style") {
        return true;
    }
    if let Some(v) = id {
        if eq_ignore_case(v.as_str(), "style") {
            return true;
        }
    }
    let mut i: usize = 0;
    while i < names.len()
        invariant
            nv == strings_view(names@),
            i <= names@.len(),
            forall|k: int| 0 <= k < i ==> !eq_ignore_ascii_case(#[trigger] nv[k], "style"@),
        decreases names@.len() - i,
    {
        if eq_ignore_case(names[i].as_str(), "style") {
            assert(nv.contains(nv[i as int]));
            proof { vstd::seq_lib::to_multiset_contains(nv, nv[i as int]); }
            return true;
        }
        i += 1;
    }
    assert forall|a: Seq<char>| nv.to_multiset().count(a) > 0 implies !#[trigger] eq_ignore_ascii_case(a, "style"@) by {
        vstd::seq_lib::to_multiset_contains(nv, a);
        let k = choose|k: int| 0 <= k < nv.len() && nv[k] == a;
    }
    false
}

/// `str::eq_ignore_ascii_case`.
pub(crate) fn eq_ignore_case(a: &str, b: &str) -> (r: bool)
    ensures
        r == eq_ignore_ascii_case(a@, b@),
{
    let x = chars_of(a);
    let y = chars_of(b);
    if x.len() != y.len() {
        return false;
    }
    let mut i: usize = 0;
    while i < x.len()
        invariant
            x@ == a@,
            y@ == b@,
            x@.len() == y@.len(),
            i <= x@.len(),
            forall|k: int| 0 <= k < i ==> ascii_lower(#[trigger] x@[k]) == ascii_lower(y@[k]),
        decreases x@.len() - i,
    {
        if lower(x[i]) != lower(y[i]) {
            return false;
        }
        i += 1;
    }
    true
}

/// The code of a character in ASCII lower case.
fn lower(c: char) -> (r: u32)
    ensures
        r == ascii_lower(c),
{
    let v = c as u32;
    if 65 <= v && v <= 90 {
        v + 32
    } else {
        v
    }
}

/// The addresses of the nodes, each with its node's index; none when HTML
/// among them styles the page.
fn collect(b: &Vec<Node>) -> (r: Option<Vec<(usize, String)>>)
    ensures
        match r {
            Some(v) => collected(b@, b@.len() as int) == Some(v@.map_values(|l: (usize, String)| (l.0 as int, l.1@)))
                && forall|k: int| 0 <= k < v@.len() ==> #[trigger] v@[k].0 < b@.len(),
            None => collected(b@, b@.len() as int) is None,
        },
{
    let mut r: Vec<(usize, String)> = Vec::new();
    let mut i: usize = 0;
    while i < b.len()
        invariant
            i <= b@.len(),
            collected(b@, i as int) == Some(r@.map_values(|l: (usize, String)| (l.0 as int, l.1@))),
            forall|k: int| 0 <= k < r@.len() ==> #[trigger] r@[k].0 < b@.len(),
        decreases b@.len() - i,
    {
        let addresses: Vec<String> = match &b[i].value {
            NodeKind::Link { url, title } => vec1(url.clone()),
            NodeKind::Image { url, title } => vec1(url.clone()),
            NodeKind::HtmlBlock(h) => match html_addresses_of(h.as_str()) {
                Some(v) => v,
                None => {
                    proof {
                        lemma_collected_none(b@, i + 1, b@.len() as int);
                    }
                    return None;
                },
            },
            NodeKind::HtmlInline(h) => match html_addresses_of(h.as_str()) {
                Some(v) => v,
                None => {
                    proof {
                        lemma_collected_none(b@, i + 1, b@.len() as int);
                    }
                    return None;
                },
            },
            _ => Vec::new(),
        };
        assert(node_addresses(b@[i as int]) == Some(strings_view(addresses@)));
        let ghost before = r@.map_values(|l: (usize, String)| (l.0 as int, l.1@));
        let mut j: usize = 0;
        while j < addresses.len()
            invariant
                i < b@.len(),
                j <= addresses@.len(),
                r@.map_values(|l: (usize, String)| (l.0 as int, l.1@))
                    == before + strings_view(addresses@).take(j as int).map_values(|x: Seq<char>| (i as int, x)),
                forall|k: int| 0 <= k < r@.len() ==> #[trigger] r@[k].0 < b@.len(),
            decreases addresses@.len() - j,
        {
            let ghost prev = r@.map_values(|l: (usize, String)| (l.0 as int, l.1@));
            r.push((i, addresses[j].clone()));
            assert(strings_view(addresses@).take(j + 1).map_values(|x: Seq<char>| (i as int, x))
                =~= strings_view(addresses@).take(j as int).map_values(|x: Seq<char>| (i as int, x)).push((i as int, addresses@[j as int]@)));
            assert(r@.map_values(|l: (usize, String)| (l.0 as int, l.1@)) =~= prev.push((i as int, addresses@[j as int]@)));
            j += 1;
        }
        assert(strings_view(addresses@).take(addresses@.len() as int) =~= strings_view(addresses@));
        i += 1;
    }
    Some(r)
}

/// Once HTML styles the page, no address is collected from more of it.
proof fn lemma_html_none(nodes: Seq<Option<(Seq<char>, Option<Seq<char>>, Multiset<Seq<char>>, Multiset<Seq<char>>)>>, k: int, m: int)
    requires
        0 <= k <= m,
        html_addresses(nodes, k) is None,
    ensures
        html_addresses(nodes, m) is None,
    decreases m - k,
{
    if k < m {
        lemma_html_none(nodes, k, m - 1);
    }
}

/// Once a node's HTML styles the page, no address is collected from more
/// nodes.
proof fn lemma_collected_none(b: Seq<Node>, k: int, m: int)
    requires
        0 <= k <= m,
        collected(b, k) is None,
    ensures
        collected(b, m) is None,
    decreases m - k,
{
    if k < m {
        lemma_collected_none(b, k, m - 1);
    }
}

impl RelativeLinks {
    /// The messages for the first `k` collected addresses are, in order,
    /// those of the addresses that are flagged.
    proof fn lemma_address_messages_filter(&self, ctx: &Context, slug: Seq<char>, links: Seq<(int, Seq<char>)>, k: int)
        requires
            0 <= k <= links.len(),
        ensures
            self.address_messages(ctx, slug, links, k) == links.take(k).filter(
                |l: (int, Seq<char>)| self.flagged(l.1),
            ).map_values(|l: (int, Seq<char>)| self.address_message(ctx, slug, ctx.body@[l.0], l.1)),
        decreases k,
    {
        reveal(Seq::filter);
        let pred = |l: (int, Seq<char>)| self.flagged(l.1);
        let msg = |l: (int, Seq<char>)| self.address_message(ctx, slug, ctx.body@[l.0], l.1);
        let t = links.take(k);
        if k > 0 {
            self.lemma_address_messages_filter(ctx, slug, links, k - 1);
            assert(t.drop_last() =~= links.take(k - 1));
            assert(t.last() == links[k - 1]);
            let sub = t.drop_last().filter(pred);
            assert(t.filter(pred) == if pred(t.last()) {
                sub.push(t.last())
            } else {
                sub
            });
            assert(sub.push(t.last()).map_values(msg) =~= sub.map_values(msg).push(msg(t.last())));
        } else {
            assert(t =~= Seq::<(int, Seq<char>)>::empty());
            assert(t.filter(pred) =~= Seq::<(int, Seq<char>)>::empty());
            assert(t.filter(pred).map_values(msg) =~= Seq::<MessageView>::empty());
        }
    }
}

/// Once the patterns compile and the body's addresses are collected, the
/// lint raises, in order, exactly one message for each address that is not
/// relative and not an exception, wherever it stands, and no other.
pub proof fn law_relative_links_exact(lint: RelativeLinks, slug: Seq<char>, ctx: &Context)
    ensures
        regex_compiles(absolute_pattern()) && regex_compiles(site_pattern()) && regex_set_compiles(
            strings_view(lint.exceptions@),
        ) ==> match collected(ctx.body@, ctx.body@.len() as int) {
            None => lint.spec_lint(slug, ctx) is Err,
            Some(links) => lint.spec_lint(slug, ctx) == Ok::<Seq<MessageView>, Seq<char>>(
                links.filter(|l: (int, Seq<char>)| lint.flagged(l.1)).map_values(
                    |l: (int, Seq<char>)| lint.address_message(ctx, slug, ctx.body@[l.0], l.1),
                ),
            ),
        },
{
    if let Some(links) = collected(ctx.body@, ctx.body@.len() as int) {
        lint.lemma_address_messages_filter(ctx, slug, links, links.len() as int);
        assert(links.take(links.len() as int) =~= links);
    }
}

} // verus!
