//! Reading a proposal: splitting off its preamble, parsing the headers, and
//! placing the markdown body's nodes on the proposal's lines.

use vstd::prelude::*;

use crate::preamble::{
    field_of_line, first_index, parse_preamble, parse_spec, split_preamble, split_spec, text_bound,
    FieldView, Preamble, SplitError,
};
use crate::snippets::{clone_opt, opt_view, FooterView, Level, Message, MessageView, SnippetView};
use crate::text::{blen, chars_of, split};
use crate::tree::{markdown_nodes, node_is, parse_markdown, Node};

verus! {

/// A proposal that could be split: its headers (none when they could not
/// be parsed), its body, and how many lines come before the body.
#[derive(Debug)]
pub struct Processed {
    pub preamble: Preamble,
    pub body_source: String,
    pub preamble_lines: usize,
    /// The nodes of the body, placed on the proposal's lines.
    pub body: Vec<Node>,
}

/// `r` is the parsed nodes `b` placed after `offset` lines (see
/// `place_nodes`), or empty when a line would not fit in a `usize`.
pub open spec fn placed_body(b: Seq<Node>, offset: int, r: Seq<Node>) -> bool {
    if offset + max_line(b) <= usize::MAX {
        &&& r.len() == b.len()
        &&& forall|i: int|
            0 <= i < r.len() ==> {
                &&& (#[trigger] r[i]).start_line == placed_start(b, offset, i)
                &&& r[i].end_line == placed_end(b, offset, i)
                &&& r[i].value == b[i].value
                &&& r[i].depth == b[i].depth
                &&& r[i].start_column == b[i].start_column
                &&& r[i].end_column == b[i].end_column
            }
    } else {
        r.len() == 0
    }
}

/// `r` is the nodes of `body`, as `comrak` parses it, placed after
/// `offset` lines.
pub open spec fn body_of(body: Seq<char>, offset: int, r: Seq<Node>) -> bool {
    exists|b: Seq<Node>|
        #[trigger] placed_body(b, offset, r) && b.len() == markdown_nodes(body).len()
            && forall|i: int| 0 <= i < b.len() ==> node_is(#[trigger] b[i], markdown_nodes(body)[i])
}

/// The number of occurrences of `c` in `s`.
pub open spec fn count_char(s: Seq<char>, c: char) -> nat
    decreases s.len(),
{
    if s.len() == 0 {
        0
    } else {
        count_char(s.drop_last(), c) + if s.last() == c { 1nat } else { 0nat }
    }
}

/// The first line of `s` (as `str::lines` gives it), or nothing.
pub open spec fn first_line(s: Seq<char>) -> Seq<char> {
    match first_index(s, '\n') {
        Some(i) => if i > 0 && s[i - 1] == '\r' {
            s.take(i - 1)
        } else {
            s.take(i)
        },
        None => s,
    }
}

/// Byte 3 of the UTF-8 encoding of `s` is a carriage return.
pub open spec fn cr_at_byte_3(s: Seq<char>) -> bool {
    exists|k: int| 0 <= k < s.len() && #[trigger] blen(s.take(k)) == 3 && s[k] == '\r'
}

/// The message for a proposal that does not begin with a `---` line.
pub open spec fn missing_start_message(s: Seq<char>, origin: Option<Seq<char>>) -> MessageView {
    MessageView {
        level: Level::Error,
        id: None,
        title: "first line must be `---` exactly"@,
        snippets: seq![SnippetView { source: first_line(s), line_start: 1, origin, fold: false, annotations: seq![] }],
        footers: if cr_at_byte_3(s) {
            seq![FooterView { level: Level::Help, title: "found a carriage return (CR), use Unix-style line endings (LF) instead"@ }]
        } else {
            seq![]
        },
    }
}

/// The message for a preamble that is never closed.
pub open spec fn missing_end_message() -> MessageView {
    MessageView {
        level: Level::Error,
        id: None,
        title: "preamble must be followed by a line containing `---` exactly"@,
        snippets: seq![],
        footers: seq![],
    }
}

/// What reading a proposal gives: the messages it raises, and, when it
/// could be split, its headers, body and the number of lines before the
/// body.
pub open spec fn process_spec(s: Seq<char>, origin: Option<Seq<char>>) -> (
    Seq<MessageView>,
    Option<(Seq<FieldView>, Seq<char>, int)>,
) {
    match split_spec(s) {
        Err(SplitError::MissingEnd) => (seq![missing_end_message()], None),
        Err(_) => (seq![missing_start_message(s, origin)], None),
        Ok((pre, body)) => {
            let lines = count_char(pre, '\n') + 3;
            match parse_spec(pre, origin) {
                Ok(fields) => (seq![], Some((fields, body, lines as int))),
                Err(msgs) => (msgs, Some((Seq::empty(), body, lines as int))),
            }
        },
    }
}

/// Reads a proposal from its text.
#[verifier::rlimit(80)]
pub fn process(origin: &Option<String>, source: &str) -> (r: (Vec<Message>, Option<Processed>))
    requires
        blen(source@) + 2 <= text_bound(),
    ensures
        ({
            let (msgs, rest) = process_spec(source@, opt_view(*origin));
            &&& r.0@.map_values(|m: Message| m@) == msgs
            &&& match (r.1, rest) {
                (None, None) => true,
                (Some(p), Some((fields, body, lines))) => p.preamble@ == fields && p.body_source@ == body
                    && p.preamble_lines == lines && p.preamble.wf() && body_of(body, lines, p.body@),
                _ => false,
            }
        }),
{
    let chars = chars_of(source);
    proof {
        crate::text::lemma_len_le_blen(source@);
    }
    match split_preamble(source) {
        Err(SplitError::MissingEnd) => {
            let r = crate::lints::vec1(missing_end());
            assert(r@.map_values(|m: Message| m@) =~= seq![missing_end_message()]);
            (r, None)
        },
        Err(_) => {
            let r = crate::lints::vec1(missing_start(origin, &chars));
            assert(r@.map_values(|m: Message| m@) =~= seq![missing_start_message(source@, opt_view(*origin))]);
            (r, None)
        },
        Ok((pre, body)) => {
            let pre_chars = chars_of(pre.as_str());
            proof {
                crate::text::lemma_len_le_blen(pre@);
            }
            let lines = count_newlines(&pre_chars) + 3;
            let parsed = parse_preamble(origin, pre.as_str());
            proof {
                lemma_parsed_wf(pre@, opt_view(*origin));
            }
            let ghost o = opt_view(*origin);
            assert(split_spec(source@) == Ok::<(Seq<char>, Seq<char>), SplitError>((pre@, body@)));
            match parsed {
                Ok(p) => {
                    let r: Vec<Message> = Vec::new();
                    assert(r@.map_values(|m: Message| m@) =~= Seq::<MessageView>::empty());
                    assert(parse_spec(pre@, o) == Ok::<Seq<FieldView>, Seq<MessageView>>(p@));
                    assert(process_spec(source@, o).1 == Some((p@, body@, lines as int)));
                    assert(p.fields@.len() == p@.len());
                    assert forall|i: int| 0 <= i < p.fields@.len() implies (#[trigger] p.fields@[i])@.wf() by {
                        assert(p@[i] == p.fields@[i]@);
                    }
                    assert(process_spec(source@, o).0 == Seq::<MessageView>::empty());
                    let nodes = body_nodes(body.as_str(), lines);
                    (r, Some(Processed { preamble: p, body_source: body, preamble_lines: lines, body: nodes }))
                },
                Err(msgs) => {
                    let p = Preamble::new();
                    assert(p.fields@.len() == p@.len());
                    assert(process_spec(source@, o).1 == Some((Seq::<FieldView>::empty(), body@, lines as int)));
                    assert(p@ =~= Seq::<FieldView>::empty());
                    let nodes = body_nodes(body.as_str(), lines);
                    (msgs, Some(Processed { preamble: p, body_source: body, preamble_lines: lines, body: nodes }))
                },
            }
        },
    }
}

fn missing_end() -> (m: Message)
    ensures
        m@ == missing_end_message(),
{
    let m = Message {
        level: Level::Error,
        id: None,
        title: String::from_str("preamble must be followed by a line containing `---` exactly"),
        snippets: Vec::new(),
        footers: Vec::new(),
    };
    proof {
        reveal_strlit("preamble must be followed by a line containing `---` exactly");
        assert(m@.snippets =~= seq![]);
        assert(m@.footers =~= seq![]);
    }
    m
}

fn missing_start(origin: &Option<String>, chars: &Vec<char>) -> (m: Message)
    requires
        blen(chars@) <= usize::MAX,
    ensures
        m@ == missing_start_message(chars@, opt_view(*origin)),
{
    let line = first_line_of(chars);
    let mut footers = Vec::new();
    if cr_at_3(chars) {
        let f = crate::snippets::footer(
            Level::Help,
            String::from_str("found a carriage return (CR), use Unix-style line endings (LF) instead"),
        );
        footers.push(f);
    }
    let snip = crate::snippets::snippet(line.as_str(), 1, origin, false, Vec::new());
    let ghost sv = snip@;
    let m = Message {
        level: Level::Error,
        id: None,
        title: String::from_str("first line must be `---` exactly"),
        snippets: crate::lints::vec1(snip),
        footers,
    };
    proof {
        reveal_strlit("first line must be `---` exactly");
        reveal_strlit("found a carriage return (CR), use Unix-style line endings (LF) instead");
        assert(sv.annotations =~= seq![]);
        assert(m@.snippets =~= seq![sv]);
        assert(m@.footers =~= missing_start_message(chars@, opt_view(*origin)).footers);
    }
    m
}

/// The headers parsed from a short enough text are short enough.
proof fn lemma_parsed_wf(text: Seq<char>, origin: Option<Seq<char>>)
    requires
        blen(text) + 2 <= text_bound(),
    ensures
        parse_spec(text, origin) matches Ok(fields) ==> fields.len() <= text_bound() && forall|i: int|
            0 <= i < fields.len() ==> (#[trigger] fields[i]).wf(),
{
    let lines = split(text, '\n');
    crate::text::lemma_split_offsets(text, '\n');
    crate::text::lemma_split_len(text, '\n');
    crate::text::lemma_len_le_blen(text);
    if let Ok(fields) = parse_spec(text, origin) {
        assert forall|i: int| 0 <= i < fields.len() implies (#[trigger] fields[i]).wf() by {
            let line = lines[i];
            crate::text::lemma_piece_offset_mono(lines, 0, i);
            assert(blen(line) <= blen(text));
            let f = field_of_line(line, i + 2)->0;
            assert(fields[i] == f);
            let k = first_index(line, ':')->0;
            crate::preamble::lemma_first_index_bound(line, ':');
            crate::text::lemma_blen_split(line, k);
            crate::text::lemma_blen_split(line, k + 1);
        }
    }
}

/// The first line of a text.
fn first_line_of(s: &Vec<char>) -> (r: String)
    ensures
        r@ == first_line(s@),
{
    let mut i: usize = 0;
    while i < s.len()
        invariant
            i <= s@.len(),
            forall|j: int| 0 <= j < i ==> s@[j] != '\n',
        decreases s@.len() - i,
    {
        if s[i] == '\n' {
            proof {
                crate::preamble::lemma_first_index_is(s@, '\n', i as int);
            }
            let end = if i > 0 && s[i - 1] == '\r' { i - 1 } else { i };
            let head = vstd::slice::slice_subrange(s.as_slice(), 0, end);
            assert(head@ =~= s@.take(end as int));
            return crate::text::string_of(head);
        }
        i += 1;
    }
    proof {
        crate::preamble::lemma_first_index_none(s@, '\n');
    }
    crate::text::string_of(s.as_slice())
}

/// Whether byte 3 of the text is a carriage return.
fn cr_at_3(s: &Vec<char>) -> (r: bool)
    requires
        blen(s@) <= usize::MAX,
    ensures
        r == cr_at_byte_3(s@),
{
    let mut n: usize = 0;
    let mut i: usize = 0;
    while i < s.len() && n < 3
        invariant
            i <= s@.len(),
            n == blen(s@.take(i as int)),
            n <= 3 || i > 0,
            blen(s@) <= usize::MAX,
            forall|k: int| 0 <= k < i ==> blen(s@.take(k)) < 3,
        decreases s@.len() - i,
    {
        proof {
            crate::text::lemma_blen_take_mono(s@, i + 1, s@.len() as int);
            assert(s@.take(s@.len() as int) =~= s@);
            assert(s@.take(i + 1).drop_last() =~= s@.take(i as int));
        }
        n = n + crate::text::char_byte_len(s[i]);
        i += 1;
    }
    if i < s.len() && n == 3 {
        proof {
            assert forall|k: int| 0 <= k < s@.len() && blen(s@.take(k)) == 3 implies k == i by {
                if k > i {
                    crate::text::lemma_blen_take_mono(s@, i as int, k);
                }
            }
        }
        return s[i] == '\r';
    }
    proof {
        assert forall|k: int| 0 <= k < s@.len() && blen(s@.take(k)) == 3 implies s@[k] != '\r' by {
            if k < i {
            } else if k > i {
                crate::text::lemma_blen_take_mono(s@, i as int, k);
            }
        }
    }
    false
}

/// The number of line feeds in a text.
fn count_newlines(s: &Vec<char>) -> (r: usize)
    requires
        s@.len() + 3 <= usize::MAX,
    ensures
        r == count_char(s@, '\n'),
        r <= s@.len(),
{
    let mut n: usize = 0;
    let mut i: usize = 0;
    while i < s.len()
        invariant
            i <= s@.len(),
            n == count_char(s@.take(i as int), '\n'),
            n <= i,
        decreases s@.len() - i,
    {
        assert(s@.take(i + 1).drop_last() =~= s@.take(i as int));
        if s[i] == '\n' {
            n += 1;
        }
        i += 1;
    }
    assert(s@.take(s@.len() as int) =~= s@);
    n
}

/// The nearest node before `k` that is shallower than node `i`: its
/// parent, when `k` is `i`.
pub open spec fn shallower_before(b: Seq<Node>, i: int, k: int) -> Option<int>
    decreases k,
{
    if k <= 0 {
        None
    } else if b[k - 1].depth < b[i].depth {
        Some(k - 1)
    } else {
        shallower_before(b, i, k - 1)
    }
}

/// The line on which node `i` starts in the proposal: its line in the body
/// moved down by `offset`, or, when the body gives none (0), its parent's.
pub open spec fn placed_start(b: Seq<Node>, offset: int, i: int) -> int
    decreases i,
{
    if b[i].start_line == 0 {
        match shallower_before(b, i, i) {
            Some(j) => if 0 <= j < i {
                placed_start(b, offset, j)
            } else {
                0
            },
            None => 0,
        }
    } else {
        b[i].start_line + offset
    }
}

/// The line on which node `i` ends in the proposal, by the same rule.
pub open spec fn placed_end(b: Seq<Node>, offset: int, i: int) -> int
    decreases i,
{
    if b[i].end_line == 0 {
        match shallower_before(b, i, i) {
            Some(j) => if 0 <= j < i {
                placed_end(b, offset, j)
            } else {
                0
            },
            None => 0,
        }
    } else {
        b[i].end_line + offset
    }
}

proof fn lemma_shallower_before(b: Seq<Node>, i: int, k: int)
    ensures
        shallower_before(b, i, k) matches Some(j) ==> 0 <= j < k && b[j].depth < b[i].depth,
    decreases k,
{
    if k > 0 {
        lemma_shallower_before(b, i, k - 1);
    }
}

proof fn lemma_placed_bounds(b: Seq<Node>, offset: int, i: int)
    requires
        0 <= i < b.len(),
        offset >= 0,
    ensures
        0 <= placed_start(b, offset, i) <= offset + max_line(b),
        0 <= placed_end(b, offset, i) <= offset + max_line(b),
    decreases i,
{
    lemma_shallower_before(b, i, i);
    lemma_max_line(b, i);
    if let Some(j) = shallower_before(b, i, i) {
        lemma_placed_bounds(b, offset, j);
    }
}

/// The largest line number that the nodes give.
pub open spec fn max_line(b: Seq<Node>) -> int
    decreases b.len(),
{
    if b.len() == 0 {
        0
    } else {
        let m = max_line(b.drop_last());
        let l = if b.last().start_line > b.last().end_line { b.last().start_line as int } else { b.last().end_line as int };
        if l > m { l } else { m }
    }
}

proof fn lemma_max_line(b: Seq<Node>, i: int)
    requires
        0 <= i < b.len(),
    ensures
        b[i].start_line <= max_line(b),
        b[i].end_line <= max_line(b),
        max_line(b) >= 0,
    decreases b.len(),
{
    if i < b.len() - 1 {
        lemma_max_line(b.drop_last(), i);
    }
}

/// The nodes of the body, placed on the lines of the proposal: every line
/// that the body gives is moved down by `offset` (the lines before the
/// body), and a node for which it gives none takes its parent's.
pub fn place_nodes(nodes: Vec<Node>, offset: usize) -> (r: Vec<Node>)
    requires
        offset + max_line(nodes@) <= usize::MAX,
    ensures
        r@.len() == nodes@.len(),
        forall|i: int|
            0 <= i < r@.len() ==> {
                &&& (#[trigger] r@[i]).start_line == placed_start(nodes@, offset as int, i)
                &&& r@[i].end_line == placed_end(nodes@, offset as int, i)
                &&& r@[i].value == nodes@[i].value
                &&& r@[i].depth == nodes@[i].depth
                &&& r@[i].start_column == nodes@[i].start_column
                &&& r@[i].end_column == nodes@[i].end_column
            },
{
    let ghost b = nodes@;
    // The new lines, in document order.
    let mut starts: Vec<usize> = Vec::new();
    let mut ends: Vec<usize> = Vec::new();
    let mut i: usize = 0;
    while i < nodes.len()
        invariant
            b == nodes@,
            offset + max_line(b) <= usize::MAX,
            i <= b.len(),
            starts@.len() == i,
            ends@.len() == i,
            forall|k: int| 0 <= k < i ==> #[trigger] starts@[k] == placed_start(b, offset as int, k),
            forall|k: int| 0 <= k < i ==> #[trigger] ends@[k] == placed_end(b, offset as int, k),
        decreases b.len() - i,
    {
        proof {
            lemma_placed_bounds(b, offset as int, i as int);
            lemma_max_line(b, i as int);
            lemma_shallower_before(b, i as int, i as int);
        }
        // The parent: the nearest earlier node that is shallower.
        let mut j: usize = i;
        while j > 0 && nodes[j - 1].depth >= nodes[i].depth
            invariant
                j <= i < b.len(),
                b == nodes@,
                shallower_before(b, i as int, i as int) == shallower_before(b, i as int, j as int),
            decreases j,
        {
            j -= 1;
        }
        let start = if nodes[i].start_line == 0 {
            if j > 0 { starts[j - 1] } else { 0 }
        } else {
            nodes[i].start_line + offset
        };
        let end = if nodes[i].end_line == 0 {
            if j > 0 { ends[j - 1] } else { 0 }
        } else {
            nodes[i].end_line + offset
        };
        starts.push(start);
        ends.push(end);
        i += 1;
    }
    // Take the nodes out, last first, then rebuild them in order.
    let mut nodes = nodes;
    let mut rev: Vec<Node> = Vec::new();
    while nodes.len() > 0
        invariant
            nodes@.len() + rev@.len() == b.len(),
            forall|k: int| 0 <= k < nodes@.len() ==> #[trigger] nodes@[k] == b[k],
            forall|k: int| 0 <= k < rev@.len() ==> #[trigger] rev@[k] == b[b.len() - 1 - k],
        decreases nodes@.len(),
    {
        let n = nodes.pop().unwrap();
        rev.push(n);
    }
    let mut out: Vec<Node> = Vec::new();
    while rev.len() > 0
        invariant
            rev@.len() + out@.len() == b.len(),
            starts@.len() == b.len(),
            ends@.len() == b.len(),
            forall|k: int| 0 <= k < b.len() ==> #[trigger] starts@[k] == placed_start(b, offset as int, k),
            forall|k: int| 0 <= k < b.len() ==> #[trigger] ends@[k] == placed_end(b, offset as int, k),
            forall|k: int| 0 <= k < rev@.len() ==> #[trigger] rev@[k] == b[b.len() - 1 - k],
            forall|k: int|
                0 <= k < out@.len() ==> {
                    &&& (#[trigger] out@[k]).start_line == placed_start(b, offset as int, k)
                    &&& out@[k].end_line == placed_end(b, offset as int, k)
                    &&& out@[k].value == b[k].value
                    &&& out@[k].depth == b[k].depth
                    &&& out@[k].start_column == b[k].start_column
                    &&& out@[k].end_column == b[k].end_column
                },
        decreases rev@.len(),
    {
        let k = out.len();
        let n = rev.pop().unwrap();
        assert(n == b[k as int]);
        let placed = Node { start_line: starts[k], end_line: ends[k], ..n };
        out.push(placed);
    }
    out
}


/// The nodes of `body`, placed after `offset` lines.
fn body_nodes(body: &str, offset: usize) -> (r: Vec<Node>)
    ensures
        body_of(body@, offset as int, r@),
{
    let nodes = parse_markdown(body);
    let ghost b = nodes@;
    let m = max_line_of(&nodes);
    if m > usize::MAX - offset {
        let r: Vec<Node> = Vec::new();
        assert(placed_body(b, offset as int, r@));
        return r;
    }
    let r = place_nodes(nodes, offset);
    assert(placed_body(b, offset as int, r@));
    r
}

/// The last line any node gives (0 for none).
fn max_line_of(nodes: &Vec<Node>) -> (m: usize)
    ensures
        m as int == max_line(nodes@),
{
    let mut m: usize = 0;
    let mut i: usize = 0;
    assert(nodes@.take(0) =~= Seq::<Node>::empty());
    while i < nodes.len()
        invariant
            i <= nodes@.len(),
            m as int == max_line(nodes@.take(i as int)),
        decreases nodes@.len() - i,
    {
        assert(nodes@.take(i + 1).drop_last() =~= nodes@.take(i as int));
        let l = if nodes[i].start_line > nodes[i].end_line { nodes[i].start_line } else { nodes[i].end_line };
        if l > m {
            m = l;
        }
        i += 1;
    }
    assert(nodes@.take(nodes@.len() as int) =~= nodes@);
    m
}

} // verus!
