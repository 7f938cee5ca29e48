//! Reading a markdown node's value back from the text `comrak` prints for
//! it with `{:?}`: the variant's name, the string fields in order (with
//! their escapes undone), and the first number (a heading's level).

use vstd::prelude::*;

verus! {

/// A character of a Rust identifier's ASCII letters and digits.
pub open spec fn is_word(c: char) -> bool {
    ('a' <= c && c <= 'z') || ('A' <= c && c <= 'Z') || ('0' <= c && c <= '9') || c == '_'
}

/// How many characters of `d`, from its start, are word characters.
pub open spec fn name_len(d: Seq<char>, k: int) -> int
    decreases k,
{
    if k <= 0 {
        0
    } else if name_len(d, k - 1) == k - 1 && is_word(d[k - 1]) {
        k
    } else {
        name_len(d, k - 1)
    }
}

/// The name a value's text starts with (its variant).
pub open spec fn debug_name(d: Seq<char>) -> Seq<char> {
    d.take(name_len(d, d.len() as int))
}

/// Reading the first number of a text, character by character: its value
/// (kept at 256 once it passes 255) and whether none, some or all of its
/// digits have been read (0, 1, 2).
pub open spec fn num_scan(d: Seq<char>, k: int) -> (int, int)
    decreases k,
{
    if k <= 0 {
        (0, 0)
    } else {
        let (v, st) = num_scan(d, k - 1);
        let c = d[k - 1];
        let dg = c as int - '0' as int;
        if '0' <= c && c <= '9' {
            if st == 0 {
                (dg, 1)
            } else if st == 1 {
                (if v * 10 + dg > 256 { 256 } else { v * 10 + dg }, 1)
            } else {
                (v, st)
            }
        } else if st == 1 {
            (v, 2)
        } else {
            (v, st)
        }
    }
}

/// The first number of a text, if there is one below 256.
pub open spec fn debug_level(d: Seq<char>) -> Option<u8> {
    let (v, st) = num_scan(d, d.len() as int);
    if st != 0 && v <= 255 {
        Some(v as u8)
    } else {
        None
    }
}

/// The character that `\c` stands for in a Rust string's debug text.
pub open spec fn escape_char(c: char) -> Option<char> {
    if c == 't' {
        Some('\t')
    } else if c == 'r' {
        Some('\r')
    } else if c == 'n' {
        Some('\n')
    } else if c == '0' {
        Some('\0')
    } else if c == '\\' || c == '"' || c == '\'' {
        Some(c)
    } else {
        None
    }
}

/// The value of a hexadecimal digit, or -1.
pub open spec fn hex_value(c: char) -> int {
    if '0' <= c && c <= '9' {
        c as int - '0' as int
    } else if 'a' <= c && c <= 'f' {
        c as int - 'a' as int + 10
    } else if 'A' <= c && c <= 'F' {
        c as int - 'A' as int + 10
    } else {
        -1
    }
}

/// The character with a code, if the code is one (`char::from_u32`).
pub open spec fn code_char(code: int) -> Option<char> {
    if (0 <= code < 0xD800) || (0xE000 <= code <= 0x10FFFF) {
        Some(code as char)
    } else {
        None
    }
}

/// Reading the string literals of a text: those read so far, the mode
/// (0 outside a literal, 1 inside, 2 after a backslash, 3 after `\u`,
/// 4 in the hex digits of `\u{..}`), the literal being read, and the code
/// being read (kept at `0x110000` once it passes the last character).
pub struct LitScan {
    pub lits: Seq<Seq<char>>,
    pub mode: int,
    pub cur: Seq<char>,
    pub code: int,
}

/// One character more.
pub open spec fn lit_step(s: LitScan, c: char) -> LitScan {
    if s.mode == 0 {
        if c == '"' {
            LitScan { lits: s.lits, mode: 1, cur: seq![], code: 0 }
        } else {
            s
        }
    } else if s.mode == 1 {
        if c == '"' {
            LitScan { lits: s.lits.push(s.cur), mode: 0, cur: seq![], code: 0 }
        } else if c == '\\' {
            LitScan { mode: 2, ..s }
        } else {
            LitScan { cur: s.cur.push(c), ..s }
        }
    } else if s.mode == 2 {
        if c == 'u' {
            LitScan { mode: 3, ..s }
        } else {
            match escape_char(c) {
                Some(e) => LitScan { mode: 1, cur: s.cur.push(e), ..s },
                None => LitScan { mode: 1, cur: s.cur.push(c), ..s },
            }
        }
    } else if s.mode == 3 {
        if c == '{' {
            LitScan { mode: 4, code: 0, ..s }
        } else {
            LitScan { mode: 1, ..s }
        }
    } else {
        if hex_value(c) >= 0 {
            let v = s.code * 16 + hex_value(c);
            LitScan { code: if v > 0x110000 { 0x110000 } else { v }, ..s }
        } else if c == '}' {
            match code_char(s.code) {
                Some(ch) => LitScan { mode: 1, cur: s.cur.push(ch), ..s },
                None => LitScan { mode: 1, ..s },
            }
        } else {
            LitScan { mode: 1, ..s }
        }
    }
}

/// Reading the first `k` characters.
pub open spec fn lit_scan(d: Seq<char>, k: int) -> LitScan
    decreases k,
{
    if k <= 0 {
        LitScan { lits: seq![], mode: 0, cur: seq![], code: 0 }
    } else {
        lit_step(lit_scan(d, k - 1), d[k - 1])
    }
}

/// The string literals of a text, in order, with their escapes undone.
pub open spec fn debug_literals(d: Seq<char>) -> Seq<Seq<char>> {
    lit_scan(d, d.len() as int).lits
}

/// Calls `char::from_u32`: the character with the code, if it is one.
#[verifier::external_body]
fn char_of_code(code: u32) -> (r: Option<char>)
    ensures
        r == code_char(code as int),
{
    char::from_u32(code)
}

/// The length of the name a text starts with.
pub fn name_length(d: &[char]) -> (r: usize)
    ensures
        r as int == name_len(d@, d@.len() as int),
        r <= d@.len(),
{
    let mut i: usize = 0;
    while i < d.len() && is_word_exec(d[i])
        invariant
            i <= d@.len(),
            name_len(d@, i as int) == i,
        decreases d@.len() - i,
    {
        i += 1;
    }
    proof {
        lemma_name_len_stays(d@, i as int, d@.len() as int);
    }
    i
}

/// Once the name stops short, it stays that long.
proof fn lemma_name_len_stays(d: Seq<char>, stop: int, k: int)
    requires
        0 <= stop <= k <= d.len(),
        name_len(d, stop) == stop,
        stop < d.len() ==> !is_word(d[stop]),
    ensures
        name_len(d, k) == stop,
    decreases k,
{
    if k > stop {
        lemma_name_len_stays(d, stop, k - 1);
    }
}

/// Whether a character is a word character.
fn is_word_exec(c: char) -> (r: bool)
    ensures
        r == is_word(c),
{
    ('a' <= c && c <= 'z') || ('A' <= c && c <= 'Z') || ('0' <= c && c <= '9') || c == '_'
}

/// The first number of a text, if there is one below 256.
pub fn first_level(d: &[char]) -> (r: Option<u8>)
    ensures
        r == debug_level(d@),
{
    let mut v: u32 = 0;
    let mut st: u8 = 0;
    let mut i: usize = 0;
    while i < d.len()
        invariant
            i <= d@.len(),
            num_scan(d@, i as int) == (v as int, st as int),
            v <= 256,
        decreases d@.len() - i,
    {
        let c = d[i];
        if '0' <= c && c <= '9' {
            let dg = (c as u32) - ('0' as u32);
            if st == 0 {
                v = dg;
                st = 1;
            } else if st == 1 {
                v = if v * 10 + dg > 256 { 256 } else { v * 10 + dg };
            }
        } else if st == 1 {
            st = 2;
        }
        i += 1;
    }
    if st != 0 && v <= 255 {
        Some(v as u8)
    } else {
        None
    }
}

/// The value of a hexadecimal digit, or none.
fn hex_of(c: char) -> (r: Option<u32>)
    ensures
        match r {
            Some(h) => hex_value(c) == h as int && h < 16,
            None => hex_value(c) < 0,
        },
{
    if '0' <= c && c <= '9' {
        Some((c as u32) - ('0' as u32))
    } else if 'a' <= c && c <= 'f' {
        Some((c as u32) - ('a' as u32) + 10)
    } else if 'A' <= c && c <= 'F' {
        Some((c as u32) - ('A' as u32) + 10)
    } else {
        None
    }
}

/// The views of the literals read.
pub open spec fn lits_view(v: Seq<Vec<char>>) -> Seq<Seq<char>> {
    v.map_values(|x: Vec<char>| x@)
}

/// The string literals of a text, in order, with their escapes undone.
pub fn literals(d: &[char]) -> (r: Vec<Vec<char>>)
    ensures
        lits_view(r@) == debug_literals(d@),
{
    let mut lits: Vec<Vec<char>> = Vec::new();
    let mut mode: u8 = 0;
    let mut cur: Vec<char> = Vec::new();
    let mut code: u32 = 0;
    let mut i: usize = 0;
    assert(lits_view(lits@) =~= Seq::<Seq<char>>::empty());
    assert(cur@ =~= Seq::<char>::empty());
    while i < d.len()
        invariant
            i <= d@.len(),
            lit_scan(d@, i as int) == (LitScan { lits: lits_view(lits@), mode: mode as int, cur: cur@, code: code as int }),
            code <= 0x110000,
        decreases d@.len() - i,
    {
        let c = d[i];
        let ghost before = lits_view(lits@);
        if mode == 0 {
            if c == '"' {
                mode = 1;
                cur = Vec::new();
                code = 0;
            }
        } else if mode == 1 {
            if c == '"' {
                let ghost dv = cur@;
                lits.push(cur);
                cur = Vec::new();
                assert(lits_view(lits@) =~= before.push(dv));
                mode = 0;
                code = 0;
            } else if c == '\\' {
                mode = 2;
            } else {
                cur.push(c);
            }
        } else if mode == 2 {
            if c == 'u' {
                mode = 3;
            } else {
                let e = if c == 't' {
                    '\t'
                } else if c == 'r' {
                    '\r'
                } else if c == 'n' {
                    '\n'
                } else if c == '0' {
                    '\0'
                } else {
                    c
                };
                cur.push(e);
                mode = 1;
            }
        } else if mode == 3 {
            if c == '{' {
                mode = 4;
                code = 0;
            } else {
                mode = 1;
            }
        } else {
            match hex_of(c) {
                Some(h) => {
                    code = if code > 0x10FFFF { 0x110000 } else if code * 16 + h > 0x110000 { 0x110000 } else { code * 16 + h };
                },
                None => {
                    if c == '}' {
                        match char_of_code(code) {
                            Some(ch) => cur.push(ch),
                            None => {},
                        }
                    }
                    mode = 1;
                },
            }
        }
        i += 1;
    }
    lits
}

} // verus!
