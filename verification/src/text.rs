//! Character-level text helpers: whitespace trimming, splitting, unsigned
//! integer parsing and UTF-8 byte offsets.

use vstd::prelude::*;

verus! {

// ---------------------------------------------------------------------------
// Conversions between strings and character vectors.
// ---------------------------------------------------------------------------

/// Calls `str::chars` and collects the characters: the result holds the
/// characters of `s`, in order.
#[verifier::external_body]
pub(crate) fn chars_of(s: &str) -> (r: Vec<char>)
    ensures
        r@ == s@,
{
    s.chars().collect()
}

/// Calls `String::from_iter` on the characters: the result holds exactly
/// the characters of `v`, in order.
#[verifier::external_body]
pub(crate) fn string_of(v: &[char]) -> (r: String)
    ensures
        r@ == v@,
{
    String::from_iter(v.iter())
}

/// Concatenation of two strings.
pub fn concat(a: &str, b: &str) -> (r: String)
    ensures
        r@ == a@ + b@,
{
    let mut r = String::from_str(a);
    r.append(b);
    r
}

/// Concatenation of three strings.
pub fn concat3(a: &str, b: &str, c: &str) -> (r: String)
    ensures
        r@ == a@ + b@ + c@,
{
    let mut r = String::from_str(a);
    r.append(b);
    r.append(c);
    r
}

/// Concatenation of five strings.
pub fn concat5(a: &str, b: &str, c: &str, d: &str, e: &str) -> (r: String)
    ensures
        r@ == a@ + b@ + c@ + d@ + e@,
{
    let mut r = String::from_str(a);
    r.append(b);
    r.append(c);
    r.append(d);
    r.append(e);
    r
}

/// Concatenation of seven strings.
pub fn concat7(a: &str, b: &str, c: &str, d: &str, e: &str, f: &str, g: &str) -> (r: String)
    ensures
        r@ == a@ + b@ + c@ + d@ + e@ + f@ + g@,
{
    let mut r = String::from_str(a);
    r.append(b);
    r.append(c);
    r.append(d);
    r.append(e);
    r.append(f);
    r.append(g);
    r
}

/// Equality of two character sequences.
pub fn chars_eq(a: &[char], b: &[char]) -> (r: bool)
    ensures
        r == (a@ == b@),
{
    if a.len() != b.len() {
        return false;
    }
    let mut i: usize = 0;
    while i < a.len()
        invariant
            a@.len() == b@.len(),
            i <= a@.len(),
            forall|j: int| 0 <= j < i ==> a@[j] == b@[j],
        decreases a@.len() - i,
    {
        if a[i] != b[i] {
            return false;
        }
        i += 1;
    }
    assert(a@ =~= b@);
    true
}

/// Equality of two strings, by their characters.
pub fn str_eq(a: &str, b: &str) -> (r: bool)
    ensures
        r == (a@ == b@),
{
    let x = chars_of(a);
    let y = chars_of(b);
    chars_eq(x.as_slice(), y.as_slice())
}

// ---------------------------------------------------------------------------
// Whitespace and trimming.
// ---------------------------------------------------------------------------

/// The characters with the Unicode `White_Space` property, as recognized by
/// `char::is_whitespace`.
pub open spec fn is_ws(c: char) -> bool {
    ||| c == ' '
    ||| c == '\t'
    ||| c == '\n'
    ||| c == '\x0B'
    ||| c == '\x0C'
    ||| c == '\r'
    ||| c == '\u{85}'
    ||| c == '\u{A0}'
    ||| c == '\u{1680}'
    ||| ('\u{2000}' <= c && c <= '\u{200A}')
    ||| c == '\u{2028}'
    ||| c == '\u{2029}'
    ||| c == '\u{202F}'
    ||| c == '\u{205F}'
    ||| c == '\u{3000}'
}

pub fn is_whitespace(c: char) -> (r: bool)
    ensures
        r == is_ws(c),
{
    c == ' ' || c == '\t' || c == '\n' || c == '\x0B' || c == '\x0C' || c == '\r' || c
        == '\u{85}' || c == '\u{A0}' || c == '\u{1680}' || ('\u{2000}' <= c && c <= '\u{200A}')
        || c == '\u{2028}' || c == '\u{2029}' || c == '\u{202F}' || c == '\u{205F}' || c
        == '\u{3000}'
}

/// `s` with its leading whitespace removed.
pub open spec fn trim_start(s: Seq<char>) -> Seq<char>
    decreases s.len(),
{
    if s.len() > 0 && is_ws(s[0]) {
        trim_start(s.drop_first())
    } else {
        s
    }
}

/// `s` with its trailing whitespace removed.
pub open spec fn trim_end(s: Seq<char>) -> Seq<char>
    decreases s.len(),
{
    if s.len() > 0 && is_ws(s.last()) {
        trim_end(s.drop_last())
    } else {
        s
    }
}

/// `s` with leading and trailing whitespace removed (`str::trim`).
pub open spec fn trim(s: Seq<char>) -> Seq<char> {
    trim_end(trim_start(s))
}

/// The number of leading whitespace characters of `s`.
pub open spec fn lead_ws(s: Seq<char>) -> nat
    decreases s.len(),
{
    if s.len() > 0 && is_ws(s[0]) {
        1 + lead_ws(s.drop_first())
    } else {
        0
    }
}

pub proof fn lemma_trim_start_skip(s: Seq<char>)
    ensures
        lead_ws(s) <= s.len(),
        trim_start(s) == s.skip(lead_ws(s) as int),
    decreases s.len(),
{
    if s.len() > 0 && is_ws(s[0]) {
        lemma_trim_start_skip(s.drop_first());
        assert(s.drop_first().skip(lead_ws(s.drop_first()) as int) =~= s.skip(
            lead_ws(s) as int,
        ));
    } else {
        assert(s.skip(0) =~= s);
    }
}

/// The index of the first non-whitespace character (or the length).
pub fn trim_start_index(s: &[char]) -> (r: usize)
    ensures
        r <= s@.len(),
        r == lead_ws(s@),
        trim_start(s@) == s@.skip(r as int),
{
    proof {
        lemma_trim_start_skip(s@);
    }
    let mut i: usize = 0;
    assert(s@.skip(0) =~= s@);
    while i < s.len() && is_whitespace(s[i])
        invariant
            i <= s@.len(),
            lead_ws(s@) == i + lead_ws(s@.skip(i as int)),
            forall|j: int| 0 <= j < i ==> is_ws(s@[j]),
        decreases s@.len() - i,
    {
        assert(s@.skip(i as int).drop_first() =~= s@.skip(i + 1));
        i += 1;
    }
    if i < s.len() {
        assert(s@.skip(i as int)[0] == s@[i as int]);
    }
    i
}

/// The number of trailing whitespace characters of `s`.
pub open spec fn trail_ws(s: Seq<char>) -> nat
    decreases s.len(),
{
    if s.len() > 0 && is_ws(s.last()) {
        1 + trail_ws(s.drop_last())
    } else {
        0
    }
}

pub proof fn lemma_trim_end_take(s: Seq<char>)
    ensures
        trail_ws(s) <= s.len(),
        trim_end(s) == s.take(s.len() - trail_ws(s)),
    decreases s.len(),
{
    if s.len() > 0 && is_ws(s.last()) {
        lemma_trim_end_take(s.drop_last());
        assert(s.drop_last().take(s.drop_last().len() - trail_ws(s.drop_last())) =~= s.take(
            s.len() - trail_ws(s),
        ));
    } else {
        assert(s.take(s.len() as int) =~= s);
    }
}

/// The index just past the last non-whitespace character (or 0).
pub fn trim_end_index(s: &[char]) -> (r: usize)
    ensures
        r <= s@.len(),
        r == s@.len() - trail_ws(s@),
        trim_end(s@) == s@.take(r as int),
{
    proof {
        lemma_trim_end_take(s@);
    }
    let mut i: usize = s.len();
    assert(s@.take(s@.len() as int) =~= s@);
    while i > 0 && is_whitespace(s[i - 1])
        invariant
            i <= s@.len(),
            trail_ws(s@) == (s@.len() - i) + trail_ws(s@.take(i as int)),
        decreases i,
    {
        assert(s@.take(i as int).drop_last() =~= s@.take(i - 1));
        i -= 1;
    }
    i
}

/// `str::trim` on characters.
pub fn trim_chars(s: &[char]) -> (r: Vec<char>)
    ensures
        r@ == trim(s@),
{
    let a = trim_start_index(s);
    let rest = vstd::slice::slice_subrange(s, a, s.len());
    assert(rest@ =~= s@.skip(a as int));
    let b = trim_end_index(rest);
    let mut r: Vec<char> = Vec::new();
    let mut i: usize = 0;
    while i < b
        invariant
            b <= rest@.len(),
            i <= b,
            r@ == rest@.take(i as int),
        decreases b - i,
    {
        r.push(rest[i]);
        assert(rest@.take(i + 1) =~= rest@.take(i as int).push(rest@[i as int]));
        i += 1;
    }
    r
}

/// `str::trim` on a string, returning its characters.
pub fn trim_str(s: &str) -> (r: Vec<char>)
    ensures
        r@ == trim(s@),
{
    let c = chars_of(s);
    trim_chars(c.as_slice())
}

/// Whether `s` has no leading and no trailing whitespace (`s.trim() == s`).
pub open spec fn is_trimmed(s: Seq<char>) -> bool {
    trim(s) == s
}

// ---------------------------------------------------------------------------
// Splitting.
// ---------------------------------------------------------------------------

/// The pieces of `s` between occurrences of `sep` (`str::split` on a char):
/// always at least one piece, possibly empty.
pub open spec fn split(s: Seq<char>, sep: char) -> Seq<Seq<char>>
    decreases s.len(),
{
    if s.len() == 0 {
        seq![Seq::<char>::empty()]
    } else {
        let init = split(s.drop_last(), sep);
        if s.last() == sep {
            init.push(Seq::<char>::empty())
        } else {
            init.update(init.len() - 1, init.last().push(s.last()))
        }
    }
}

pub proof fn lemma_split_nonempty(s: Seq<char>, sep: char)
    ensures
        split(s, sep).len() >= 1,
    decreases s.len(),
{
    if s.len() > 0 {
        lemma_split_nonempty(s.drop_last(), sep);
    }
}

pub proof fn lemma_split_len(s: Seq<char>, sep: char)
    ensures
        1 <= split(s, sep).len() <= s.len() + 1,
    decreases s.len(),
{
    if s.len() > 0 {
        lemma_split_len(s.drop_last(), sep);
    }
}

/// Splits `s` at every `sep`.
pub fn split_chars(s: &[char], sep: char) -> (r: Vec<Vec<char>>)
    ensures
        r@.len() == split(s@, sep).len(),
        forall|i: int| 0 <= i < r@.len() ==> #[trigger] r@[i]@ == split(s@, sep)[i],
{
    let mut done: Vec<Vec<char>> = Vec::new();
    let mut cur: Vec<char> = Vec::new();
    let mut i: usize = 0;
    while i < s.len()
        invariant
            i <= s@.len(),
            split(s@.take(i as int), sep).len() == done@.len() + 1,
            forall|j: int|
                0 <= j < done@.len() ==> #[trigger] done@[j]@ == split(s@.take(i as int), sep)[j],
            cur@ == split(s@.take(i as int), sep).last(),
        decreases s@.len() - i,
    {
        proof {
            lemma_split_nonempty(s@.take(i as int), sep);
            assert(s@.take(i + 1).drop_last() =~= s@.take(i as int));
        }
        if s[i] == sep {
            done.push(cur);
            cur = Vec::new();
        } else {
            cur.push(s[i]);
        }
        i += 1;
    }
    assert(s@.take(s@.len() as int) =~= s@);
    done.push(cur);
    done
}

/// The byte offset of piece `k` in the text that was split into `pieces`
/// at a one-byte separator.
pub open spec fn piece_offset(pieces: Seq<Seq<char>>, k: int) -> int
    decreases k,
{
    if k <= 0 {
        0
    } else {
        piece_offset(pieces, k - 1) + blen(pieces[k - 1]) + 1
    }
}

pub proof fn lemma_piece_offset_prefix(a: Seq<Seq<char>>, b: Seq<Seq<char>>, k: int)
    requires
        0 <= k <= a.len(),
        k <= b.len(),
        forall|j: int| 0 <= j < k ==> a[j] == b[j],
    ensures
        piece_offset(a, k) == piece_offset(b, k),
    decreases k,
{
    if k > 0 {
        lemma_piece_offset_prefix(a, b, k - 1);
    }
}

pub proof fn lemma_piece_offset_mono(p: Seq<Seq<char>>, j: int, k: int)
    requires
        0 <= j <= k <= p.len(),
    ensures
        piece_offset(p, j) <= piece_offset(p, k),
        j < k ==> piece_offset(p, j) + blen(p[j]) < piece_offset(p, k),
    decreases k - j,
{
    if j < k {
        lemma_piece_offset_mono(p, j, k - 1);
    }
}

/// The pieces of a text split at a one-byte separator lie within its bytes.
pub proof fn lemma_split_offsets(s: Seq<char>, sep: char)
    requires
        char_blen(sep) == 1,
    ensures
        ({
            let p = split(s, sep);
            &&& p.len() >= 1
            &&& piece_offset(p, p.len() - 1) + blen(p.last()) == blen(s)
            &&& forall|k: int| 0 <= k < p.len() ==> piece_offset(p, k) + blen(#[trigger] p[k]) <= blen(s)
        }),
    decreases s.len(),
{
    let p = split(s, sep);
    lemma_split_nonempty(s, sep);
    if s.len() > 0 {
        let init = split(s.drop_last(), sep);
        lemma_split_offsets(s.drop_last(), sep);
        lemma_split_nonempty(s.drop_last(), sep);
        if s.last() == sep {
            assert(p[p.len() - 1] == Seq::<char>::empty());
            lemma_piece_offset_prefix(p, init, init.len() as int);
            assert(piece_offset(p, p.len() - 1) == piece_offset(p, init.len() - 1) + blen(init.last()) + 1);
            lemma_piece_offset_prefix(p, init, init.len() - 1);
        } else {
            lemma_piece_offset_prefix(p, init, init.len() - 1);
            assert(p.last() == init.last().push(s.last()));
            assert(p.last().drop_last() =~= init.last());
        }
        assert forall|k: int| 0 <= k < p.len() implies piece_offset(p, k) + blen(#[trigger] p[k]) <= blen(s) by {
            if k < p.len() - 1 {
                lemma_piece_offset_mono(p, k, p.len() - 1);
            }
        }
    } else {
        assert(p =~= seq![Seq::<char>::empty()]);
    }
}

// ---------------------------------------------------------------------------
// Unsigned integers.
// ---------------------------------------------------------------------------

pub open spec fn is_digit(c: char) -> bool {
    '0' <= c && c <= '9'
}

pub open spec fn all_digits(s: Seq<char>) -> bool {
    forall|i: int| 0 <= i < s.len() ==> is_digit(#[trigger] s[i])
}

/// The number that a sequence of decimal digits denotes.
pub open spec fn digits_value(s: Seq<char>) -> nat
    decreases s.len(),
{
    if s.len() == 0 {
        0
    } else {
        digits_value(s.drop_last()) * 10 + ((s.last() as int - '0' as int) as nat)
    }
}

/// The digits after an optional leading `+`.
pub open spec fn unsigned_digits(s: Seq<char>) -> Seq<char> {
    if s.len() > 0 && s[0] == '+' {
        s.drop_first()
    } else {
        s
    }
}

/// What `str::parse` gives for an unsigned integer type whose largest value
/// is `max`: an optional `+`, then one or more ASCII digits, denoting a
/// number that is at most `max`.
pub open spec fn parse_unsigned(s: Seq<char>, max: int) -> Option<nat> {
    let d = unsigned_digits(s);
    if d.len() > 0 && all_digits(d) && digits_value(d) <= max {
        Some(digits_value(d))
    } else {
        None
    }
}

proof fn lemma_digits_value_mono(s: Seq<char>, k: int)
    requires
        0 <= k <= s.len(),
        all_digits(s),
    ensures
        digits_value(s.take(k)) <= digits_value(s),
    decreases s.len() - k,
{
    if k < s.len() {
        lemma_digits_value_mono(s, k + 1);
        assert(s.take(k + 1).drop_last() =~= s.take(k));
        assert(is_digit(s[k]));
    } else {
        assert(s.take(k) =~= s);
    }
}

/// `str::parse::<u64>`.
pub fn parse_u64(s: &[char]) -> (r: Option<u64>)
    ensures
        match parse_unsigned(s@, u64::MAX as int) {
            Some(v) => r == Some(v as u64),
            None => r.is_none(),
        },
{
    let start: usize = if s.len() > 0 && s[0] == '+' {
        1
    } else {
        0
    };
    let ghost d = unsigned_digits(s@);
    assert(d =~= s@.skip(start as int));
    if start == s.len() {
        return None;
    }
    let mut val: u64 = 0;
    let mut i: usize = start;
    while i < s.len()
        invariant
            start <= i <= s@.len(),
            d == s@.skip(start as int),
            d == unsigned_digits(s@),
            d.len() > 0,
            all_digits(d.take(i - start)),
            val as nat == digits_value(d.take(i - start)),
        decreases s@.len() - i,
    {
        let c = s[i];
        assert(d[i - start] == c);
        if !('0' <= c && c <= '9') {
            assert(!is_digit(d[i - start]));
            assert(!all_digits(d));
            assert(parse_unsigned(s@, u64::MAX as int).is_none());
            return None;
        }
        let digit: u64 = (c as u32 - '0' as u32) as u64;
        assert(d.take(i - start + 1).drop_last() =~= d.take(i - start));
        if val > (u64::MAX - digit) / 10 {
            proof {
                assert(val * 10 + digit > u64::MAX) by (nonlinear_arith)
                    requires
                        val > (u64::MAX - digit) / 10,
                        digit <= 9,
                ;
                assert(d.take(i - start + 1).last() == c);
                assert(all_digits(d.take(i - start + 1)));
                assert(digits_value(d.take(i - start + 1)) == val * 10 + digit);
                if all_digits(d) {
                    lemma_digits_value_mono(d, i - start + 1);
                }
                assert(parse_unsigned(s@, u64::MAX as int).is_none());
            }
            return None;
        }
        proof {
            assert(val * 10 + digit <= u64::MAX) by (nonlinear_arith)
                requires
                    val <= (u64::MAX - digit) / 10,
                    digit <= 9,
            ;
        }
        val = val * 10 + digit;
        i += 1;
    }
    assert(d.take(i - start) =~= d);
    Some(val)
}

/// `str::parse::<u32>`.
pub fn parse_u32(s: &[char]) -> (r: Option<u32>)
    ensures
        match parse_unsigned(s@, u32::MAX as int) {
            Some(v) => r == Some(v as u32),
            None => r.is_none(),
        },
{
    match parse_u64(s) {
        Some(v) => {
            if v <= u32::MAX as u64 {
                Some(v as u32)
            } else {
                None
            }
        },
        None => None,
    }
}

// ---------------------------------------------------------------------------
// UTF-8 byte offsets.
// ---------------------------------------------------------------------------

/// The number of bytes of the UTF-8 encoding of `c`.
pub open spec fn char_blen(c: char) -> nat {
    if (c as u32) < 0x80 {
        1
    } else if (c as u32) < 0x800 {
        2
    } else if (c as u32) < 0x10000 {
        3
    } else {
        4
    }
}

/// The number of bytes of the UTF-8 encoding of `s` (`str::len`).
pub open spec fn blen(s: Seq<char>) -> nat
    decreases s.len(),
{
    if s.len() == 0 {
        0
    } else {
        blen(s.drop_last()) + char_blen(s.last())
    }
}

pub fn char_byte_len(c: char) -> (r: usize)
    ensures
        r == char_blen(c),
{
    let v = c as u32;
    if v < 0x80 {
        1
    } else if v < 0x800 {
        2
    } else if v < 0x10000 {
        3
    } else {
        4
    }
}

pub proof fn lemma_blen_take_mono(s: Seq<char>, j: int, k: int)
    requires
        0 <= j <= k <= s.len(),
    ensures
        blen(s.take(j)) <= blen(s.take(k)),
        j < k ==> blen(s.take(j)) < blen(s.take(k)),
    decreases k - j,
{
    if j < k {
        lemma_blen_take_mono(s, j, k - 1);
        assert(s.take(k).drop_last() =~= s.take(k - 1));
    }
}

/// Each character takes at least one byte.
pub proof fn lemma_len_le_blen(s: Seq<char>)
    ensures
        s.len() <= blen(s),
    decreases s.len(),
{
    if s.len() > 0 {
        lemma_len_le_blen(s.drop_last());
    }
}

pub proof fn lemma_blen_concat(a: Seq<char>, b: Seq<char>)
    ensures
        blen(a + b) == blen(a) + blen(b),
    decreases b.len(),
{
    if b.len() == 0 {
        assert(a + b =~= a);
    } else {
        lemma_blen_concat(a, b.drop_last());
        assert((a + b).drop_last() =~= a + b.drop_last());
    }
}

pub proof fn lemma_blen_split(s: Seq<char>, k: int)
    requires
        0 <= k <= s.len(),
    ensures
        blen(s) == blen(s.take(k)) + blen(s.skip(k)),
{
    lemma_blen_concat(s.take(k), s.skip(k));
    assert(s.take(k) + s.skip(k) =~= s);
}

/// Trimming never makes a text longer.
pub proof fn lemma_trim_bound(s: Seq<char>)
    ensures
        blen(trim(s)) <= blen(s),
        trim(s).len() <= s.len(),
{
    lemma_trim_start_skip(s);
    let t = trim_start(s);
    lemma_blen_split(s, lead_ws(s) as int);
    lemma_trim_end_take(t);
    lemma_blen_split(t, t.len() - trail_ws(t));
}

/// The UTF-8 length of a sequence of characters.
pub fn byte_len(s: &[char]) -> (r: usize)
    requires
        blen(s@) <= usize::MAX,
    ensures
        r == blen(s@),
{
    let mut n: usize = 0;
    let mut i: usize = 0;
    while i < s.len()
        invariant
            i <= s@.len(),
            n == blen(s@.take(i as int)),
            blen(s@) <= usize::MAX,
        decreases s@.len() - i,
    {
        proof {
            lemma_blen_take_mono(s@, i + 1, s@.len() as int);
            assert(s@.take(s@.len() as int) =~= s@);
            assert(s@.take(i + 1).drop_last() =~= s@.take(i as int));
        }
        n = n + char_byte_len(s[i]);
        i += 1;
    }
    assert(s@.take(s@.len() as int) =~= s@);
    n
}

/// Whether the UTF-8 length of `s` is at most `bound`.
pub fn blen_at_most(s: &str, bound: usize) -> (r: bool)
    requires
        bound <= usize::MAX - 4,
    ensures
        r == (blen(s@) <= bound),
{
    let c = chars_of(s);
    let mut n: usize = 0;
    let mut i: usize = 0;
    while i < c.len()
        invariant
            i <= c@.len(),
            c@ == s@,
            bound <= usize::MAX - 4,
            n == blen(c@.take(i as int)),
            n <= bound,
        decreases c@.len() - i,
    {
        assert(c@.take(i + 1).drop_last() =~= c@.take(i as int));
        n = n + char_byte_len(c[i]);
        i += 1;
        if n > bound {
            proof {
                lemma_blen_take_mono(c@, i as int, c@.len() as int);
                assert(c@.take(c@.len() as int) =~= c@);
            }
            return false;
        }
    }
    assert(c@.take(c@.len() as int) =~= c@);
    true
}

/// The UTF-8 length of a string (`str::len`).
pub fn str_byte_len(s: &str) -> (r: usize)
    requires
        blen(s@) <= usize::MAX,
    ensures
        r == blen(s@),
{
    let c = chars_of(s);
    byte_len(c.as_slice())
}

/// The number of characters of `s` before byte offset `b`, which falls
/// between two characters.
pub fn char_index(s: &[char], b: usize) -> (r: usize)
    requires
        is_boundary(s@, b as int),
        blen(s@) <= usize::MAX,
    ensures
        r <= s@.len(),
        blen(s@.take(r as int)) == b,
{
    let ghost k = choose|k: int| 0 <= k <= s@.len() && blen(s@.take(k)) == b;
    let mut n: usize = 0;
    let mut i: usize = 0;
    assert(s@.take(0) =~= Seq::<char>::empty());
    while n < b
        invariant
            0 <= k <= s@.len(),
            blen(s@.take(k)) == b,
            blen(s@) <= usize::MAX,
            i <= k,
            n == blen(s@.take(i as int)),
        decreases k - i,
    {
        proof {
            assert(i != k);
            lemma_blen_take_mono(s@, i + 1, s@.len() as int);
            assert(s@.take(s@.len() as int) =~= s@);
            assert(s@.take(i + 1).drop_last() =~= s@.take(i as int));
        }
        n = n + char_byte_len(s[i]);
        i += 1;
        proof {
            if i > k {
                lemma_blen_take_mono(s@, k, i as int);
            }
        }
    }
    proof {
        if i < k {
            lemma_blen_take_mono(s@, i as int, k);
        }
    }
    i
}

/// Whether byte offset `b` of `s` falls between two characters.
pub open spec fn is_boundary(s: Seq<char>, b: int) -> bool {
    exists|k: int| 0 <= k <= s.len() && blen(s.take(k)) == b
}

/// The smallest character boundary of `s` at or after byte offset `index`,
/// or the length when `index` is past the end.
pub open spec fn ceil_boundary(s: Seq<char>, index: int) -> int {
    if index > blen(s) {
        blen(s) as int
    } else {
        choose|b: int|
            is_boundary(s, b) && index <= b && forall|c: int|
                index <= c < b ==> !is_boundary(s, c)
    }
}

/// The smallest character boundary of `text` at or after byte `index`
/// (`str::ceil_char_boundary`).
pub fn ceil_char_boundary(text: &[char], index: usize) -> (r: usize)
    requires
        blen(text@) <= usize::MAX,
    ensures
        r == ceil_boundary(text@, index as int),
        index <= blen(text@) ==> is_boundary(text@, r as int) && index <= r,
        index <= blen(text@) ==> forall|c: int| index <= c < r ==> !#[trigger] is_boundary(text@, c),
        index > blen(text@) ==> r == blen(text@),
{
    let total = byte_len(text);
    if index > total {
        return total;
    }
    assert(text@.take(text@.len() as int) =~= text@);
    let mut pos: usize = 0;
    let mut k: usize = 0;
    while pos < index
        invariant
            k <= text@.len(),
            pos == blen(text@.take(k as int)),
            index <= total == blen(text@),
            forall|c: int| 0 <= c < pos ==> !(index <= c) || !is_boundary(text@, c),
            forall|c: int|
                #![trigger is_boundary(text@, c)]
                (exists|j: int| 0 <= j < k && blen(text@.take(j)) == c) || pos <= c || !is_boundary(
                    text@,
                    c,
                ),
        decreases text@.len() - k,
    {
        proof {
            if k == text@.len() {
                assert(text@.take(k as int) =~= text@);
                assert(false);
            }
            lemma_blen_take_mono(text@, k + 1, text@.len() as int);
            assert(text@.take(text@.len() as int) =~= text@);
            assert(text@.take(k + 1).drop_last() =~= text@.take(k as int));
        }
        let step = char_byte_len(text[k]);
        assert(blen(text@.take(k + 1)) == pos + step);
        proof {
            assert forall|c: int|
                #![trigger is_boundary(text@, c)]
                (exists|j: int| 0 <= j < k + 1 && blen(text@.take(j)) == c) || pos + step <= c
                    || !is_boundary(text@, c) by {
                if is_boundary(text@, c) && c < pos + step {
                    let kk = choose|kk: int| 0 <= kk <= text@.len() && blen(text@.take(kk)) == c;
                    if kk > k {
                        lemma_blen_take_mono(text@, k + 1, kk);
                    }
                    if kk < k + 1 {
                        assert(0 <= kk < k + 1 && blen(text@.take(kk)) == c);
                    }
                }
            }
            assert forall|c: int| 0 <= c < pos + step implies !(index <= c) || !is_boundary(
                text@,
                c,
            ) by {
                if index <= c && is_boundary(text@, c) && c >= pos {
                    let kk = choose|kk: int| 0 <= kk <= text@.len() && blen(text@.take(kk)) == c;
                    if kk <= k {
                        lemma_blen_take_mono(text@, kk, k as int);
                    } else {
                        lemma_blen_take_mono(text@, k + 1, kk);
                    }
                }
            }
        }
        pos = pos + step;
        k += 1;
    }
    proof {
        assert(is_boundary(text@, pos as int));
        assert(forall|c: int| index <= c < pos ==> !is_boundary(text@, c));
        let b = ceil_boundary(text@, index as int);
        assert(is_boundary(text@, b) && index <= b && forall|c: int|
            index <= c < b ==> !is_boundary(text@, c));
        if b < pos {
            assert(!is_boundary(text@, b));
        }
        if b > pos {
            assert(!is_boundary(text@, pos as int));
        }
    }
    pos
}

// ---------------------------------------------------------------------------
// Decimal rendering.
// ---------------------------------------------------------------------------

/// The decimal digits of `n`, without leading zeros.
pub open spec fn decimal(n: nat) -> Seq<char>
    decreases n,
{
    if n < 10 {
        seq![('0' as int + n) as char]
    } else {
        decimal(n / 10).push(('0' as int + n % 10) as char)
    }
}

/// Renders `n` in decimal, as `ToString` does.
pub fn u64_to_string(n: u64) -> (r: String)
    ensures
        r@ == decimal(n as nat),
{
    let mut digits: Vec<char> = Vec::new();
    let mut m: u64 = n;
    // Digits are collected from the least significant one.
    while m >= 10
        invariant
            decimal(n as nat) == decimal(m as nat) + digits@.reverse(),
        decreases m,
    {
        let c = char_from_digit((m % 10) as u32);
        proof {
            assert(decimal(m as nat) == decimal((m / 10) as nat).push(c));
            assert(digits@.push(c).reverse() =~= seq![c] + digits@.reverse());
            assert(decimal((m / 10) as nat).push(c) + digits@.reverse() =~= decimal(
                (m / 10) as nat,
            ) + (seq![c] + digits@.reverse()));
        }
        digits.push(c);
        m = m / 10;
    }
    let c = char_from_digit(m as u32);
    proof {
        assert(decimal(m as nat) =~= seq![c]);
        assert(digits@.push(c).reverse() =~= seq![c] + digits@.reverse());
    }
    digits.push(c);
    let mut out: Vec<char> = Vec::new();
    let mut i: usize = digits.len();
    while i > 0
        invariant
            i <= digits@.len(),
            out@ == digits@.skip(i as int).reverse(),
        decreases i,
    {
        i -= 1;
        out.push(digits[i]);
        assert(digits@.skip(i as int).reverse() =~= digits@.skip(i + 1).reverse().push(
            digits@[i as int],
        ));
    }
    assert(digits@.skip(0) =~= digits@);
    assert(decimal(n as nat) =~= digits@.reverse());
    string_of(out.as_slice())
}

fn char_from_digit(d: u32) -> (c: char)
    requires
        d < 10,
    ensures
        c == ('0' as int + d) as char,
{
    if d == 0 {
        '0'
    } else if d == 1 {
        '1'
    } else if d == 2 {
        '2'
    } else if d == 3 {
        '3'
    } else if d == 4 {
        '4'
    } else if d == 5 {
        '5'
    } else if d == 6 {
        '6'
    } else if d == 7 {
        '7'
    } else if d == 8 {
        '8'
    } else {
        '9'
    }
}

/// What `str::to_uppercase` gives: the text in Unicode upper case.
pub uninterp spec fn upper_case(s: Seq<char>) -> Seq<char>;

/// Calls `str::to_uppercase`.
#[verifier::external_body]
pub(crate) fn to_upper(s: &str) -> (r: String)
    ensures
        r@ == upper_case(s@),
{
    s.to_uppercase()
}

} // verus!
