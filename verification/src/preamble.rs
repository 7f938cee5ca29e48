//! The preamble of a proposal: the `name: value` lines between a first line
//! `---` and the next line `---`.

use vstd::prelude::*;

use crate::snippets::{clone_opt, opt_view, Level, Message, MessageView, SnippetView};
use crate::text::{blen, chars_eq, chars_of, split, split_chars, string_of};

verus! {

/// One header of the preamble.
#[derive(Debug)]
pub struct Field {
    pub name: String,
    pub value: String,
    /// The whole line, `name:value`.
    pub source: String,
    /// The line number (starting at 1) of the header in the proposal.
    pub line_start: usize,
}

#[verifier::ext_equal]
pub struct FieldView {
    pub name: Seq<char>,
    pub value: Seq<char>,
    pub source: Seq<char>,
    pub line_start: int,
}

impl View for Field {
    type V = FieldView;

    open spec fn view(&self) -> FieldView {
        FieldView {
            name: self.name@,
            value: self.value@,
            source: self.source@,
            line_start: self.line_start as int,
        }
    }
}

/// The largest byte length of a text that the lints handle (a proposal,
/// its body, or a header): a quarter of the address space, so that the
/// sums of offsets the lints form (a position plus a length plus a few
/// bytes of a marker) still fit in a `usize`. A text this long could not be
/// held next to the copies the lints make of it anyway.
pub open spec fn text_bound() -> int {
    (usize::MAX / 4) as int
}

impl FieldView {
    /// The name, value and line are short enough that offsets into them fit
    /// in a `usize`.
    pub open spec fn wf(self) -> bool {
        &&& blen(self.name) <= text_bound()
        &&& blen(self.value) <= text_bound()
        &&& blen(self.source) <= text_bound()
        &&& self.line_start <= text_bound()
    }
}

impl Field {
    pub fn name(&self) -> (r: &str)
        ensures
            r@ == self.name@,
    {
        self.name.as_str()
    }

    pub fn value(&self) -> (r: &str)
        ensures
            r@ == self.value@,
    {
        self.value.as_str()
    }

    pub fn source(&self) -> (r: &str)
        ensures
            r@ == self.source@,
    {
        self.source.as_str()
    }

    pub fn line_start(&self) -> (r: usize)
        ensures
            r == self.line_start,
    {
        self.line_start
    }
}

/// The headers of a proposal, in the order they appear.
#[derive(Debug)]
pub struct Preamble {
    pub fields: Vec<Field>,
}

pub open spec fn fields_view(f: Seq<Field>) -> Seq<FieldView> {
    f.map_values(|x: Field| x@)
}

impl View for Preamble {
    type V = Seq<FieldView>;

    open spec fn view(&self) -> Seq<FieldView> {
        fields_view(self.fields@)
    }
}

/// The first header named `name`.
pub open spec fn find_field(f: Seq<FieldView>, name: Seq<char>) -> Option<FieldView>
    decreases f.len(),
{
    if f.len() == 0 {
        None
    } else if f[0].name == name {
        Some(f[0])
    } else {
        find_field(f.drop_first(), name)
    }
}

pub proof fn lemma_find_field_in(f: Seq<FieldView>, name: Seq<char>)
    ensures
        find_field(f, name) matches Some(x) ==> f.contains(x) && x.name == name,
        find_field(f, name) is None ==> forall|i: int| 0 <= i < f.len() ==> f[i].name != name,
    decreases f.len(),
{
    if f.len() > 0 {
        lemma_find_field_in(f.drop_first(), name);
        if f[0].name != name {
            if let Some(x) = find_field(f.drop_first(), name) {
                let k = choose|k: int| 0 <= k < f.drop_first().len() && f.drop_first()[k] == x;
                assert(f[k + 1] == x);
            }
            assert forall|i: int| 0 <= i < f.len() && find_field(f, name) is None implies f[i].name
                != name by {
                if i > 0 {
                    assert(f[i] == f.drop_first()[i - 1]);
                }
            }
        } else {
            assert(f[0] == f[0]);
        }
    }
}

impl Preamble {
    /// An empty preamble.
    pub fn new() -> (r: Preamble)
        ensures
            r@ == Seq::<FieldView>::empty(),
    {
        let r = Preamble { fields: Vec::new() };
        assert(r@ =~= Seq::<FieldView>::empty());
        r
    }

    /// Every header is short enough for the lints' offsets.
    pub open spec fn wf(&self) -> bool {
        &&& self.fields@.len() <= text_bound()
        &&& forall|i: int| 0 <= i < self.fields@.len() ==> (#[trigger] self.fields@[i])@.wf()
    }

    /// The first header named `name`.
    pub fn by_name(&self, name: &str) -> (r: Option<&Field>)
        ensures
            match r {
                Some(f) => find_field(self@, name@) == Some(f@),
                None => find_field(self@, name@) is None,
            },
            r matches Some(f) ==> self.fields@.contains(*f),
    {
        let target = chars_of(name);
        let mut i: usize = 0;
        assert(self@.skip(0) =~= self@);
        while i < self.fields.len()
            invariant
                i <= self.fields@.len(),
                target@ == name@,
                find_field(self@, name@) == find_field(self@.skip(i as int), name@),
            decreases self.fields@.len() - i,
        {
            let n = chars_of(self.fields[i].name.as_str());
            assert(self@.skip(i as int)[0] == self.fields@[i as int]@);
            assert(self@.skip(i as int).drop_first() =~= self@.skip(i + 1));
            if chars_eq(n.as_slice(), target.as_slice()) {
                return Some(&self.fields[i]);
            }
            i += 1;
        }
        None
    }

    /// The position of the first of the first `end` headers named `name`.
    pub fn position_before(&self, end: usize, name: &str) -> (r: Option<usize>)
        requires
            end <= self.fields@.len(),
        ensures
            match r {
                Some(j) => j < end && find_field(self@.take(end as int), name@) == Some(self.fields@[j as int]@),
                None => find_field(self@.take(end as int), name@) is None,
            },
    {
        let target = chars_of(name);
        let ghost pre = self@.take(end as int);
        let mut i: usize = 0;
        assert(pre.skip(0) =~= pre);
        while i < end
            invariant
                i <= end <= self.fields@.len(),
                pre == self@.take(end as int),
                target@ == name@,
                find_field(pre, name@) == find_field(pre.skip(i as int), name@),
            decreases end - i,
        {
            let n = chars_of(self.fields[i].name.as_str());
            assert(pre.skip(i as int)[0] == self.fields@[i as int]@);
            assert(pre.skip(i as int).drop_first() =~= pre.skip(i + 1));
            if chars_eq(n.as_slice(), target.as_slice()) {
                return Some(i);
            }
            i += 1;
        }
        None
    }
}

// ---------------------------------------------------------------------------
// Splitting a proposal into preamble and body.
// ---------------------------------------------------------------------------

/// Why a proposal could not be split into preamble and body.
#[derive(Debug, Clone, Copy, PartialEq, Eq, Structural)]
pub enum SplitError {
    /// No line of the text is `---`.
    MissingStart,
    /// The first line is not `---`, though a later one is.
    LeadingGarbage,
    /// Only the first line is `---`.
    MissingEnd,
}

/// A line of exactly `---` starts at offset `p` of `s`.
pub open spec fn is_marker(s: Seq<char>, p: int) -> bool {
    &&& 0 <= p
    &&& p + 3 <= s.len()
    &&& (p == 0 || s[p - 1] == '\n')
    &&& s[p] == '-'
    &&& s[p + 1] == '-'
    &&& s[p + 2] == '-'
    &&& (p + 3 == s.len() || s[p + 3] == '\n')
}

/// The start of the first `---` line after the first line.
pub open spec fn closing_marker(s: Seq<char>) -> int {
    choose|e: int| 0 < e && is_marker(s, e) && forall|q: int| 0 < q < e ==> !is_marker(s, q)
}

/// The preamble text and the body text of `s`, or why there are none.
pub open spec fn split_spec(s: Seq<char>) -> Result<(Seq<char>, Seq<char>), SplitError> {
    if !is_marker(s, 0) {
        if exists|p: int| is_marker(s, p) {
            Err(SplitError::LeadingGarbage)
        } else {
            Err(SplitError::MissingStart)
        }
    } else if !(exists|p: int| 0 < p && is_marker(s, p)) {
        Err(SplitError::MissingEnd)
    } else {
        let e = closing_marker(s);
        let pre = if e >= 5 {
            s.subrange(4, e - 1)
        } else {
            Seq::<char>::empty()
        };
        let body = if e + 3 >= s.len() {
            Seq::<char>::empty()
        } else {
            s.skip(e + 4)
        };
        Ok((pre, body))
    }
}

/// No line of `t` is exactly `---`.
pub open spec fn has_no_marker_line(t: Seq<char>) -> bool {
    forall|q: int| !is_marker(t, q)
}

/// The text `---\n`, the preamble, `\n---\n` and the body, laid out.
proof fn lemma_round_trip_layout(pre: Seq<char>, body: Seq<char>)
    ensures
        ({
            let s = "---\n"@ + pre + "\n---\n"@ + body;
            let l = pre.len() as int;
            &&& s.len() == l + 9 + body.len()
            &&& s[0] == '-' && s[1] == '-' && s[2] == '-' && s[3] == '\n'
            &&& forall|i: int| 0 <= i < l ==> #[trigger] s[4 + i] == pre[i]
            &&& s[4 + l] == '\n' && s[5 + l] == '-' && s[6 + l] == '-' && s[7 + l] == '-' && s[8 + l] == '\n'
            &&& s.subrange(4, 4 + l) == pre
            &&& s.skip(9 + l) == body
        }),
{
    reveal_strlit("---\n");
    reveal_strlit("\n---\n");
    let open = "---\n"@;
    let close = "\n---\n"@;
    let s = open + pre + close + body;
    let l = pre.len() as int;
    assert forall|i: int| 0 <= i < l implies #[trigger] s[4 + i] == pre[i] by {
        assert(s[4 + i] == (open + pre)[4 + i]);
    }
    assert forall|j: int| 0 <= j < 5 implies s[4 + l + j] == close[j] by {
        assert(s[4 + l + j] == (open + pre + close)[4 + l + j]);
    }
    assert(s[4 + l] == close[0]);
    assert(s[5 + l] == close[1]);
    assert(s[6 + l] == close[2]);
    assert(s[7 + l] == close[3]);
    assert(s[8 + l] == close[4]);
    assert(s.subrange(4, 4 + l) =~= pre);
    assert(s.skip(9 + l) =~= body);
}

/// In such a text no line between the first and the closing one is `---`.
proof fn lemma_round_trip_no_marker(s: Seq<char>, pre: Seq<char>)
    requires
        has_no_marker_line(pre),
        s.len() >= pre.len() + 9,
        s[0] == '-' && s[1] == '-' && s[2] == '-' && s[3] == '\n',
        forall|i: int| 0 <= i < pre.len() ==> #[trigger] s[4 + i] == pre[i],
        s[4 + pre.len() as int] == '\n',
    ensures
        forall|q: int| 0 < q < pre.len() + 5 ==> !is_marker(s, q),
{
    let l = pre.len() as int;
    assert forall|q: int| 0 < q < l + 5 implies !is_marker(s, q) by {
        if q < 4 {
            assert(s[q - 1] != '\n');
        } else if q < 4 + l {
            let r = q - 4;
            if is_marker(s, q) {
                if r + 3 <= l {
                    if r > 0 {
                        assert(s[4 + (r - 1)] == pre[r - 1]);
                    }
                    assert(s[4 + r] == pre[r]);
                    assert(s[4 + (r + 1)] == pre[r + 1]);
                    assert(s[4 + (r + 2)] == pre[r + 2]);
                    if r + 3 < l {
                        assert(s[4 + (r + 3)] == pre[r + 3]);
                    }
                    assert(is_marker(pre, r));
                }
            }
        }
    }
}

/// A proposal written as a `---` line, a preamble text (not empty, with no
/// line of its own that is `---`), a `---` line and a body splits back into
/// that preamble text and that body.
pub proof fn law_split_round_trip(pre: Seq<char>, body: Seq<char>)
    requires
        pre.len() > 0,
        has_no_marker_line(pre),
    ensures
        split_spec("---\n"@ + pre + "\n---\n"@ + body) == Ok::<(Seq<char>, Seq<char>), SplitError>((pre, body)),
{
    let s = "---\n"@ + pre + "\n---\n"@ + body;
    let l = pre.len() as int;
    lemma_round_trip_layout(pre, body);
    lemma_round_trip_no_marker(s, pre);
    assert(is_marker(s, 0));
    assert(is_marker(s, l + 5));
    lemma_closing_marker(s, l + 5);
}

proof fn lemma_closing_marker(s: Seq<char>, e: int)
    requires
        is_marker(s, 0),
        0 < e,
        is_marker(s, e),
        forall|q: int| 0 < q < e ==> !is_marker(s, q),
    ensures
        closing_marker(s) == e,
        e >= 4,
{
    let c = closing_marker(s);
    assert(0 < c && is_marker(s, c) && forall|q: int| 0 < q < c ==> !is_marker(s, q));
    if c < e {
        assert(!is_marker(s, c));
    }
    if c > e {
        assert(!is_marker(s, e));
    }
    if e < 4 {
        assert(s[e - 1] == '\n');
        assert(s[e - 1] == '-');
    }
}

fn marker_at(s: &[char], p: usize) -> (r: bool)
    ensures
        r == is_marker(s@, p as int),
{
    if p > s.len() || s.len() - p < 3 {
        return false;
    }
    (p == 0 || s[p - 1] == '\n') && s[p] == '-' && s[p + 1] == '-' && s[p + 2] == '-' && (p + 3
        == s.len() || s[p + 3] == '\n')
}

fn subrange_string(s: &[char], a: usize, b: usize) -> (r: String)
    requires
        a <= b <= s@.len(),
    ensures
        r@ == s@.subrange(a as int, b as int),
{
    let sub = vstd::slice::slice_subrange(s, a, b);
    string_of(sub)
}

/// Splits a proposal into its preamble (without the `---` lines) and body.
pub fn split_preamble(text: &str) -> (r: Result<(String, String), SplitError>)
    ensures
        match (r, split_spec(text@)) {
            (Ok((p, b)), Ok((sp, sb))) => p@ == sp && b@ == sb,
            (Err(e), Err(se)) => e == se,
            _ => false,
        },
        r matches Ok((p, b)) ==> blen(p@) <= blen(text@),
{
    let s = chars_of(text);
    let n = s.len();
    if !marker_at(s.as_slice(), 0) {
        let mut p: usize = 1;
        while p < n
            invariant
                s@ == text@,
                n == s@.len(),
                1 <= p,
                forall|q: int| 0 <= q < p ==> !is_marker(s@, q),
            decreases n - p,
        {
            if marker_at(s.as_slice(), p) {
                return Err(SplitError::LeadingGarbage);
            }
            p += 1;
        }
        assert forall|q: int| !is_marker(s@, q) by {
            if q >= p && is_marker(s@, q) {
                assert(q + 3 <= n);
            }
        }
        return Err(SplitError::MissingStart);
    }
    let mut e: usize = 1;
    while e < n
        invariant
            s@ == text@,
            n == s@.len(),
            1 <= e,
            is_marker(s@, 0),
            forall|q: int| 0 < q < e ==> !is_marker(s@, q),
        decreases n - e,
    {
        if marker_at(s.as_slice(), e) {
            proof {
                lemma_closing_marker(s@, e as int);
            }
            let pre = if e >= 5 {
                subrange_string(s.as_slice(), 4, e - 1)
            } else {
                String::new()
            };
            let body = if e + 3 >= n {
                String::new()
            } else {
                subrange_string(s.as_slice(), e + 4, n)
            };
            proof {
                if e + 3 < n {
                    assert(s@.subrange(e + 4, n as int) =~= s@.skip(e + 4));
                }
                if e >= 5 {
                    assert(s@.subrange(4, e - 1) =~= s@.take(e - 1).skip(4));
                    crate::text::lemma_blen_split(s@.take(e - 1), 4);
                    crate::text::lemma_blen_split(s@, e - 1);
                }
            }
            return Ok((pre, body));
        }
        e += 1;
    }
    assert forall|q: int| 0 < q implies !is_marker(s@, q) by {
        if q >= e && is_marker(s@, q) {
            assert(q + 3 <= n);
        }
    }
    Err(SplitError::MissingEnd)
}

// ---------------------------------------------------------------------------
// Parsing the preamble's lines.
// ---------------------------------------------------------------------------

/// The offset of the first `c` in `s`.
pub open spec fn first_index(s: Seq<char>, c: char) -> Option<int>
    decreases s.len(),
{
    if s.len() == 0 {
        None
    } else if s[0] == c {
        Some(0)
    } else {
        match first_index(s.drop_first(), c) {
            Some(i) => Some(i + 1),
            None => None,
        }
    }
}

proof fn lemma_first_index(s: Seq<char>, c: char)
    ensures
        first_index(s, c) matches Some(i) ==> 0 <= i < s.len() && s[i] == c && forall|j: int|
            0 <= j < i ==> s[j] != c,
        first_index(s, c) is None ==> forall|j: int| 0 <= j < s.len() ==> s[j] != c,
    decreases s.len(),
{
    if s.len() > 0 {
        lemma_first_index(s.drop_first(), c);
        assert forall|j: int| 0 < j < s.len() implies s[j] == s.drop_first()[j - 1] by {}
    }
}

pub proof fn lemma_first_index_bound(s: Seq<char>, c: char)
    ensures
        first_index(s, c) matches Some(i) ==> 0 <= i < s.len(),
{
    lemma_first_index(s, c);
}

pub proof fn lemma_first_index_is(s: Seq<char>, c: char, i: int)
    requires
        0 <= i < s.len(),
        s[i] == c,
        forall|j: int| 0 <= j < i ==> s[j] != c,
    ensures
        first_index(s, c) == Some(i),
{
    lemma_first_index(s, c);
    if let Some(k) = first_index(s, c) {
        if k > i {
            assert(s[i] == c);
        }
    }
}

pub proof fn lemma_first_index_none(s: Seq<char>, c: char)
    requires
        forall|j: int| 0 <= j < s.len() ==> s[j] != c,
    ensures
        first_index(s, c) is None,
{
    lemma_first_index(s, c);
}

/// The header on line `line_start` of the proposal, whose text is `line`:
/// the name is the text before the first `:`, the value the text after it.
pub open spec fn field_of_line(line: Seq<char>, line_start: int) -> Option<FieldView> {
    match first_index(line, ':') {
        Some(k) => Some(
            FieldView { name: line.take(k), value: line.skip(k + 1), source: line, line_start },
        ),
        None => None,
    }
}

/// The title of the message for a line without `:`.
pub open spec fn missing_delimiter_title() -> Seq<char> {
    "missing delimiter `:` in preamble field"@
}

/// The message for a preamble line without `:`.
pub open spec fn missing_delimiter_message(
    line: Seq<char>,
    line_start: int,
    origin: Option<Seq<char>>,
) -> MessageView {
    MessageView {
        level: Level::Error,
        id: None,
        title: missing_delimiter_title(),
        snippets: seq![
            SnippetView {
                source: line,
                line_start,
                origin,
                fold: false,
                annotations: seq![],
            },
        ],
        footers: seq![],
    }
}

/// The messages for the first `k` lines, in order: one per line without `:`.
pub open spec fn parse_errors(lines: Seq<Seq<char>>, origin: Option<Seq<char>>, k: int) -> Seq<MessageView>
    decreases k,
{
    if k <= 0 {
        seq![]
    } else {
        let prev = parse_errors(lines, origin, k - 1);
        match field_of_line(lines[k - 1], k + 1) {
            Some(_) => prev,
            None => prev.push(missing_delimiter_message(lines[k - 1], k + 1, origin)),
        }
    }
}

/// The headers of a preamble text, or the messages for its malformed lines.
/// Line `i` (from 0) of the text is line `i + 2` of the proposal.
pub open spec fn parse_spec(text: Seq<char>, origin: Option<Seq<char>>) -> Result<
    Seq<FieldView>,
    Seq<MessageView>,
> {
    let lines = split(text, '\n');
    if forall|i: int| 0 <= i < lines.len() ==> (#[trigger] field_of_line(lines[i], i + 2)) is Some {
        Ok(Seq::new(lines.len(), |i: int| field_of_line(lines[i], i + 2).unwrap()))
    } else {
        Err(parse_errors(lines, origin, lines.len() as int))
    }
}

/// Every header read from a preamble text is one of its lines, in order,
/// on the line after the one before (the first on line 2 of the proposal):
/// the line is the header's name, a colon and its value, and the name
/// holds no colon.
pub proof fn law_header_lines(text: Seq<char>, origin: Option<Seq<char>>)
    ensures
        parse_spec(text, origin) matches Ok(fields) ==> {
            &&& fields.len() == split(text, '\n').len()
            &&& forall|i: int|
                0 <= i < fields.len() ==> {
                    &&& (#[trigger] fields[i]).source == split(text, '\n')[i]
                    &&& fields[i].source == fields[i].name + ":"@ + fields[i].value
                    &&& !fields[i].name.contains(':')
                    &&& fields[i].line_start == i + 2
                }
        },
{
    reveal_strlit(":");
    if let Ok(fields) = parse_spec(text, origin) {
        let lines = split(text, '\n');
        assert forall|i: int| 0 <= i < fields.len() implies {
            &&& (#[trigger] fields[i]).source == lines[i]
            &&& fields[i].source == fields[i].name + ":"@ + fields[i].value
            &&& !fields[i].name.contains(':')
            &&& fields[i].line_start == i + 2
        } by {
            let line = lines[i];
            assert(field_of_line(line, i + 2) is Some);
            lemma_first_index(line, ':');
            let k = first_index(line, ':')->0;
            assert(line =~= line.take(k) + ":"@ + line.skip(k + 1));
        }
    }
}

proof fn lemma_parse_errors_empty(lines: Seq<Seq<char>>, origin: Option<Seq<char>>, k: int)
    requires
        0 <= k <= lines.len(),
        forall|i: int| 0 <= i < k ==> (#[trigger] field_of_line(lines[i], i + 2)) is Some,
    ensures
        parse_errors(lines, origin, k) == Seq::<MessageView>::empty(),
    decreases k,
{
    if k > 0 {
        lemma_parse_errors_empty(lines, origin, k - 1);
        assert(field_of_line(lines[k - 1], k - 1 + 2) is Some);
    }
}

fn first_colon(s: &[char]) -> (r: Option<usize>)
    ensures
        match r {
            Some(i) => first_index(s@, ':') == Some(i as int),
            None => first_index(s@, ':') is None,
        },
{
    proof {
        lemma_first_index(s@, ':');
    }
    let mut i: usize = 0;
    while i < s.len()
        invariant
            i <= s@.len(),
            forall|j: int| 0 <= j < i ==> s@[j] != ':',
        decreases s@.len() - i,
    {
        if s[i] == ':' {
            proof {
                lemma_first_index(s@, ':');
                if let Some(k) = first_index(s@, ':') {
                    if k < i {
                        assert(s@[k] == ':');
                    }
                    if k > i {
                        assert(s@[i as int] == ':');
                    }
                }
            }
            return Some(i);
        }
        i += 1;
    }
    None
}

/// Parses the lines of a preamble text into headers. Either every line has
/// a `:`, or the result holds one message per line without one.
pub fn parse_preamble(origin: &Option<String>, text: &str) -> (r: Result<Preamble, Vec<Message>>)
    requires
        text@.len() + 2 <= usize::MAX,
    ensures
        match (r, parse_spec(text@, opt_view(*origin))) {
            (Ok(p), Ok(f)) => p@ == f,
            (Err(m), Err(sm)) => m@.map_values(|x: Message| x@) == sm,
            _ => false,
        },
{
    let chars = chars_of(text);
    let lines = split_chars(chars.as_slice(), '\n');
    let ghost sl = split(text@, '\n');
    proof {
        crate::text::lemma_split_len(text@, '\n');
    }
    let mut fields: Vec<Field> = Vec::new();
    let mut errors: Vec<Message> = Vec::new();
    let mut i: usize = 0;
    while i < lines.len()
        invariant
            sl == split(text@, '\n'),
            lines@.len() == sl.len(),
            sl.len() <= text@.len() + 1,
            text@.len() + 2 <= usize::MAX,
            forall|j: int| 0 <= j < lines@.len() ==> #[trigger] lines@[j]@ == sl[j],
            i <= lines@.len(),
            errors@.map_values(|x: Message| x@) == parse_errors(sl, opt_view(*origin), i as int),
            errors@.len() == 0 ==> (forall|j: int|
                0 <= j < i ==> (#[trigger] field_of_line(sl[j], j + 2)) is Some),
            errors@.len() == 0 ==> fields@.len() == i,
            errors@.len() == 0 ==> forall|j: int|
                0 <= j < i ==> #[trigger] fields@[j]@ == field_of_line(sl[j], j + 2).unwrap(),
        decreases lines@.len() - i,
    {
        let line = &lines[i];
        let line_start = i + 2;
        proof {
            lemma_first_index(line@, ':');
        }
        match first_colon(line.as_slice()) {
            Some(k) => {
                assert(k < line@.len());
                let name = subrange_string(line.as_slice(), 0, k);
                let value = subrange_string(line.as_slice(), k + 1, line.len());
                let source = string_of(line.as_slice());
                proof {
                    assert(line@.subrange(0, k as int) =~= line@.take(k as int));
                    assert(line@.subrange(k + 1, line@.len() as int) =~= line@.skip(k + 1));
                }
                fields.push(Field { name, value, source, line_start });
                proof {
                    assert(errors@.map_values(|x: Message| x@) =~= parse_errors(
                        sl,
                        opt_view(*origin),
                        i + 1,
                    ));
                }
            },
            None => {
                let sn = crate::snippets::Snippet {
                    source: string_of(line.as_slice()),
                    line_start,
                    origin: clone_opt(origin),
                    fold: false,
                    annotations: Vec::new(),
                };
                assert(sn@.annotations =~= Seq::<crate::snippets::AnnotationView>::empty());
                assert(sn@ =~= missing_delimiter_message(sl[i as int], i + 2, opt_view(*origin)).snippets[0]);
                let mut snippets = Vec::new();
                snippets.push(sn);
                let m = Message {
                    level: Level::Error,
                    id: None,
                    title: String::from_str("missing delimiter `:` in preamble field"),
                    snippets,
                    footers: Vec::new(),
                };
                proof {
                    assert(m@.snippets =~= missing_delimiter_message(
                        sl[i as int],
                        i + 2,
                        opt_view(*origin),
                    ).snippets);
                    assert(m@.footers =~= Seq::<crate::snippets::FooterView>::empty());
                    assert(m@ =~= missing_delimiter_message(sl[i as int], i + 2, opt_view(*origin)));
                }
                errors.push(m);
                proof {
                    assert(errors@.map_values(|x: Message| x@) =~= parse_errors(
                        sl,
                        opt_view(*origin),
                        i as int,
                    ).push(missing_delimiter_message(sl[i as int], i + 2, opt_view(*origin))));
                }
            },
        }
        i += 1;
    }
    if errors.len() == 0 {
        let p = Preamble { fields };
        assert(p@ =~= Seq::new(sl.len(), |j: int| field_of_line(sl[j], j + 2).unwrap()));
        Ok(p)
    } else {
        proof {
            if forall|j: int| 0 <= j < sl.len() ==> (#[trigger] field_of_line(sl[j], j + 2)) is Some {
                lemma_parse_errors_empty(sl, opt_view(*origin), sl.len() as int);
            }
        }
        Err(errors)
    }
}

} // verus!
