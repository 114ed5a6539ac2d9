//! Escaped string text for the encoded ledger. The encoder writes one
//! canonical form: quotes and backslashes get a backslash escape, control
//! characters a four-digit hex escape, and every other character stands
//! for itself. The parser accepts the full JSON escape set — the two-
//! character escapes, and `\u` followed by four hex digits naming any
//! non-surrogate scalar — and undoes the canonical escaping exactly,
//! which the round-trip lemma here proves.

use vstd::prelude::*;
use vstd::arithmetic::div_mod::lemma_fundamental_div_mod;
use vstd::string::StrSliceExecFns;
use crate::numtext::digit_char;
use crate::numtext::digit_val;
use crate::numtext::is_digit;

verus! {

pub open spec fn hex_char(d: int) -> char {
    if d < 10 {
        digit_char(d)
    } else if d == 10 {
        'a'
    } else if d == 11 {
        'b'
    } else if d == 12 {
        'c'
    } else if d == 13 {
        'd'
    } else if d == 14 {
        'e'
    } else {
        'f'
    }
}

pub open spec fn hex_val(c: char) -> int {
    if is_digit(c) {
        digit_val(c)
    } else if c == 'a' || c == 'A' {
        10
    } else if c == 'b' || c == 'B' {
        11
    } else if c == 'c' || c == 'C' {
        12
    } else if c == 'd' || c == 'D' {
        13
    } else if c == 'e' || c == 'E' {
        14
    } else if c == 'f' || c == 'F' {
        15
    } else {
        -1
    }
}

/// The character with code `v`; used only for codes that are Unicode
/// scalar values.
pub open spec fn code_char(v: u32) -> char {
    v as char
}

/// What a two-character escape stands for, if it is one.
pub open spec fn esc_code(e: char) -> Option<char> {
    if e == '"' {
        Some('"')
    } else if e == '\\' {
        Some('\\')
    } else if e == '/' {
        Some('/')
    } else if e == 'b' {
        Some('\u{8}')
    } else if e == 'f' {
        Some('\u{c}')
    } else if e == 'n' {
        Some('\n')
    } else if e == 'r' {
        Some('\r')
    } else if e == 't' {
        Some('\t')
    } else {
        None
    }
}

/// The canonical escaped form of one character.
pub open spec fn esc_char(c: char) -> Seq<char> {
    if c == '"' {
        seq!['\\', '"']
    } else if c == '\\' {
        seq!['\\', '\\']
    } else if (c as u32) < 32 {
        let v = c as u32;
        seq!['\\', 'u', '0', '0', if v >= 16 { '1' } else { '0' }, hex_char((v % 16) as int)]
    } else {
        seq![c]
    }
}

/// The canonical escaped form of a whole string.
pub open spec fn esc_rep(s: Seq<char>) -> Seq<char>
    decreases s.len(),
{
    if s.len() == 0 {
        Seq::empty()
    } else {
        esc_char(s[0]) + esc_rep(s.skip(1))
    }
}

pub open spec fn opt_prepend(pre: Seq<char>, o: Option<(Seq<char>, Seq<char>)>) -> Option<
    (Seq<char>, Seq<char>),
> {
    match o {
        None => None,
        Some((t, r)) => Some((pre + t, r)),
    }
}

/// Parse escaped string content up to and including the closing quote:
/// the JSON escapes, with `\u` escapes limited to non-surrogate codes,
/// and no raw control characters.
pub open spec fn p_jstr(s: Seq<char>) -> Option<(Seq<char>, Seq<char>)>
    decreases s.len(),
{
    if s.len() == 0 {
        None
    } else if s[0] == '"' {
        Some((Seq::empty(), s.skip(1)))
    } else if s[0] == '\\' {
        if s.len() < 2 {
            None
        } else if s[1] == 'u' {
            if s.len() < 6 {
                None
            } else {
                let h1 = hex_val(s[2]);
                let h2 = hex_val(s[3]);
                let h3 = hex_val(s[4]);
                let h4 = hex_val(s[5]);
                if h1 < 0 || h2 < 0 || h3 < 0 || h4 < 0 {
                    None
                } else {
                    let v = ((h1 * 16 + h2) * 16 + h3) * 16 + h4;
                    if 0xD800 <= v && v < 0xE000 {
                        None
                    } else {
                        opt_prepend(seq![code_char(v as u32)], p_jstr(s.skip(6)))
                    }
                }
            }
        } else {
            match esc_code(s[1]) {
                Some(c) => opt_prepend(seq![c], p_jstr(s.skip(2))),
                None => None,
            }
        }
    } else if (s[0] as u32) < 32 {
        None
    } else {
        opt_prepend(seq![s[0]], p_jstr(s.skip(1)))
    }
}

proof fn lemma_esc_rep_push(s: Seq<char>, c: char)
    ensures
        esc_rep(s.push(c)) == esc_rep(s) + esc_char(c),
    decreases s.len(),
{
    if s.len() == 0 {
        assert(s.push(c)[0] == c);
        assert(s.push(c).skip(1) =~= Seq::<char>::empty());
        assert(esc_rep(s.push(c)) == esc_char(c) + esc_rep(Seq::<char>::empty()));
        assert(esc_char(c) + Seq::<char>::empty() =~= Seq::<char>::empty() + esc_char(c));
    } else {
        assert(s.push(c)[0] == s[0]);
        assert(s.push(c).skip(1) =~= s.skip(1).push(c));
        lemma_esc_rep_push(s.skip(1), c);
        assert(esc_char(s[0]) + (esc_rep(s.skip(1)) + esc_char(c)) =~= (esc_char(s[0]) + esc_rep(
            s.skip(1),
        )) + esc_char(c));
    }
}

/// Parsing undoes the canonical escaping, whatever the string holds.
pub proof fn lemma_p_jstr_rep(s: Seq<char>, rest: Seq<char>)
    ensures
        p_jstr(esc_rep(s) + seq!['"'] + rest) == Some((s, rest)),
    decreases s.len(),
{
    let inp = esc_rep(s) + seq!['"'] + rest;
    if s.len() == 0 {
        assert(inp =~= seq!['"'] + rest);
        assert(inp[0] == '"');
        assert(inp.skip(1) =~= rest);
    } else {
        let c = s[0];
        let tail = s.skip(1);
        let sub = esc_rep(tail) + seq!['"'] + rest;
        assert(esc_rep(s) == esc_char(c) + esc_rep(tail));
        assert(inp =~= esc_char(c) + sub);
        lemma_p_jstr_rep(tail, rest);
        assert(seq![c] + tail =~= s);
        if c == '"' {
            assert(inp[0] == '\\' && inp[1] == '"');
            assert(inp.skip(2) =~= sub);
            assert(p_jstr(inp) == opt_prepend(seq!['"'], p_jstr(sub)));
        } else if c == '\\' {
            assert(inp[0] == '\\' && inp[1] == '\\');
            assert(inp.skip(2) =~= sub);
            assert(p_jstr(inp) == opt_prepend(seq!['\\'], p_jstr(sub)));
        } else if (c as u32) < 32 {
            let v = c as u32;
            lemma_fundamental_div_mod(v as int, 16);
            assert(inp[0] == '\\' && inp[1] == 'u' && inp[2] == '0' && inp[3] == '0');
            assert(inp[4] == (if v >= 16 { '1' } else { '0' }));
            assert(inp[5] == hex_char((v % 16) as int));
            assert(hex_val(inp[2]) == 0 && hex_val(inp[3]) == 0);
            assert(hex_val(inp[4]) == v as int / 16);
            assert(hex_val(inp[5]) == v as int % 16);
            assert(((hex_val(inp[2]) * 16 + hex_val(inp[3])) * 16 + hex_val(inp[4])) * 16 + hex_val(
                inp[5],
            ) == v as int);
            assert(code_char(v) == c) by {
                vstd::utf8::char_u32_cast(c, v);
            }
            assert(inp.skip(6) =~= sub);
            assert(p_jstr(inp) == opt_prepend(seq![c], p_jstr(sub)));
        } else {
            assert(inp[0] == c);
            assert(inp.skip(1) =~= sub);
            assert(p_jstr(inp) == opt_prepend(seq![c], p_jstr(sub)));
        }
    }
}

// ---------------------------------------------------------------------------
// Whitespace between tokens
// ---------------------------------------------------------------------------

pub open spec fn is_ws(c: char) -> bool {
    c == ' ' || c == '\t' || c == '\n' || c == '\r'
}

/// The suffix after any leading whitespace.
pub open spec fn p_ws(s: Seq<char>) -> Seq<char>
    decreases s.len(),
{
    if s.len() > 0 && is_ws(s[0]) {
        p_ws(s.skip(1))
    } else {
        s
    }
}

pub proof fn lemma_p_ws_props(s: Seq<char>)
    ensures
        p_ws(s).len() <= s.len(),
        p_ws(s).len() > 0 ==> !is_ws(p_ws(s)[0]),
    decreases s.len(),
{
    if s.len() > 0 && is_ws(s[0]) {
        lemma_p_ws_props(s.skip(1));
    }
}

fn is_ws_x(c: char) -> (b: bool)
    ensures
        b == is_ws(c),
{
    c == ' ' || c == '\t' || c == '\n' || c == '\r'
}

/// Advance `i` past any whitespace.
pub fn skip_ws(s: &Vec<char>, i: usize) -> (j: usize)
    requires
        i <= s.len(),
    ensures
        i <= j <= s.len(),
        p_ws(s@.skip(i as int)) == s@.skip(j as int),
        j < s.len() ==> !is_ws(s@[j as int]),
{
    let mut j: usize = i;
    while j < s.len() && is_ws_x(s[j])
        invariant
            i <= j <= s.len(),
            p_ws(s@.skip(i as int)) == p_ws(s@.skip(j as int)),
        decreases s.len() - j,
    {
        proof {
            assert(s@.skip(j as int)[0] == s@[j as int]);
            lemma_skip_skip(s@, j as int, 1);
        }
        j = j + 1;
    }
    proof {
        if j < s.len() {
            assert(s@.skip(j as int)[0] == s@[j as int]);
        }
        assert(p_ws(s@.skip(j as int)) == s@.skip(j as int));
    }
    j
}

// ---------------------------------------------------------------------------
// Characters and strings
// ---------------------------------------------------------------------------

/// Relies on `String`'s `FromIterator<char>` impl: collecting characters
/// yields the string of exactly those characters, in order.
#[verifier::external_body]
pub fn chars_to_string(v: &Vec<char>) -> (s: String)
    ensures
        s@ == v@,
{
    v.iter().collect()
}

/// Relies on `char::from_u32`: `Some` exactly on Unicode scalar values,
/// and then the character with that code.
#[verifier::external_body]
fn char_from_u32(v: u32) -> (r: Option<char>)
    ensures
        r is Some <==> vstd::utf8::is_scalar(v),
        r matches Some(c) ==> c as u32 == v,
{
    char::from_u32(v)
}

/// The characters of `s`, in order, as a vector.
pub fn str_to_chars(s: &str) -> (v: Vec<char>)
    ensures
        v@ == s@,
{
    let n = s.unicode_len();
    let mut v: Vec<char> = Vec::new();
    let mut i: usize = 0;
    while i < n
        invariant
            i <= n,
            n == s@.len(),
            v@ == s@.subrange(0, i as int),
        decreases n - i,
    {
        v.push(s.get_char(i));
        assert(v@ =~= s@.subrange(0, i + 1 as int));
        i = i + 1;
    }
    assert(s@.subrange(0, n as int) =~= s@);
    v
}

/// Append the characters of `s` to `out`, unchanged.
pub fn push_str_chars(out: &mut Vec<char>, s: &str)
    ensures
        final(out)@ == old(out)@ + s@,
{
    let n = s.unicode_len();
    let mut i: usize = 0;
    while i < n
        invariant
            i <= n,
            n == s@.len(),
            out@ == old(out)@ + s@.subrange(0, i as int),
        decreases n - i,
    {
        out.push(s.get_char(i));
        assert(out@ =~= old(out)@ + s@.subrange(0, i + 1 as int));
        i = i + 1;
    }
    assert(s@.subrange(0, n as int) =~= s@);
}

// ---------------------------------------------------------------------------
// Executable escaping
// ---------------------------------------------------------------------------

fn hex_char_x(d: u32) -> (c: char)
    requires
        d < 16,
    ensures
        c == hex_char(d as int),
{
    match d {
        0 => '0',
        1 => '1',
        2 => '2',
        3 => '3',
        4 => '4',
        5 => '5',
        6 => '6',
        7 => '7',
        8 => '8',
        9 => '9',
        10 => 'a',
        11 => 'b',
        12 => 'c',
        13 => 'd',
        14 => 'e',
        _ => 'f',
    }
}

fn hex_val_x(c: char) -> (d: i8)
    ensures
        d as int == hex_val(c),
{
    match c {
        '0' => 0,
        '1' => 1,
        '2' => 2,
        '3' => 3,
        '4' => 4,
        '5' => 5,
        '6' => 6,
        '7' => 7,
        '8' => 8,
        '9' => 9,
        'a' | 'A' => 10,
        'b' | 'B' => 11,
        'c' | 'C' => 12,
        'd' | 'D' => 13,
        'e' | 'E' => 14,
        'f' | 'F' => 15,
        _ => -1,
    }
}

fn esc_code_x(e: char) -> (r: Option<char>)
    ensures
        r == esc_code(e),
{
    match e {
        '"' => Some('"'),
        '\\' => Some('\\'),
        '/' => Some('/'),
        'b' => Some('\u{8}'),
        'f' => Some('\u{c}'),
        'n' => Some('\n'),
        'r' => Some('\r'),
        't' => Some('\t'),
        _ => None,
    }
}

/// Append the canonical escaped form of `s` to `out`.
pub fn push_escaped(out: &mut Vec<char>, s: &str)
    ensures
        final(out)@ == old(out)@ + esc_rep(s@),
{
    let n = s.unicode_len();
    let mut i: usize = 0;
    while i < n
        invariant
            i <= n,
            n == s@.len(),
            out@ == old(out)@ + esc_rep(s@.subrange(0, i as int)),
        decreases n - i,
    {
        let c = s.get_char(i);
        proof {
            lemma_esc_rep_push(s@.subrange(0, i as int), c);
            assert(s@.subrange(0, i + 1 as int) =~= s@.subrange(0, i as int).push(c));
        }
        if c == '"' {
            out.push('\\');
            out.push('"');
        } else if c == '\\' {
            out.push('\\');
            out.push('\\');
        } else if (c as u32) < 32 {
            let v = c as u32;
            out.push('\\');
            out.push('u');
            out.push('0');
            out.push('0');
            out.push(if v >= 16 { '1' } else { '0' });
            out.push(hex_char_x(v % 16));
        } else {
            out.push(c);
        }
        assert(out@ =~= old(out)@ + esc_rep(s@.subrange(0, i + 1 as int)));
        i = i + 1;
    }
    assert(s@.subrange(0, n as int) =~= s@);
}

// ---------------------------------------------------------------------------
// Executable parsing
// ---------------------------------------------------------------------------

pub proof fn lemma_skip_skip(s: Seq<char>, i: int, k: int)
    requires
        0 <= i,
        0 <= k,
        i + k <= s.len(),
    ensures
        s.skip(i).skip(k) == s.skip(i + k),
{
    assert(s.skip(i).skip(k) =~= s.skip(i + k));
}

proof fn lemma_opt_prepend_assoc(a: Seq<char>, b: Seq<char>, o: Option<(Seq<char>, Seq<char>)>)
    ensures
        opt_prepend(a, opt_prepend(b, o)) == opt_prepend(a + b, o),
{
    match o {
        None => {},
        Some((t, r)) => {
            assert(a + (b + t) =~= (a + b) + t);
        },
    }
}

/// Parse escaped string content starting at `i`, up to and including the
/// closing quote.
pub fn parse_jstr(s: &Vec<char>, i: usize) -> (r: Option<(Vec<char>, usize)>)
    requires
        i <= s.len(),
    ensures
        match r {
            Some((out, j)) => {
                &&& i <= j <= s.len()
                &&& p_jstr(s@.skip(i as int)) == Some((out@, s@.skip(j as int)))
            },
            None => p_jstr(s@.skip(i as int)) is None,
        },
{
    let ghost s0 = s@.skip(i as int);
    let mut out: Vec<char> = Vec::new();
    let mut j: usize = i;
    loop
        invariant
            i <= j <= s.len(),
            s0 == s@.skip(i as int),
            p_jstr(s0) == opt_prepend(out@, p_jstr(s@.skip(j as int))),
        decreases s.len() - j,
    {
        let ghost sj = s@.skip(j as int);
        if j == s.len() {
            return None;
        }
        assert(sj[0] == s@[j as int]);
        let c = s[j];
        if c == '"' {
            proof {
                lemma_skip_skip(s@, j as int, 1);
                assert(out@ + Seq::<char>::empty() =~= out@);
            }
            return Some((out, j + 1));
        }
        if c == '\\' {
            if s.len() - j < 2 {
                return None;
            }
            assert(sj[1] == s@[j + 1]);
            let e = s[j + 1];
            if e == 'u' {
                if s.len() - j < 6 {
                    return None;
                }
                assert(sj[2] == s@[j + 2] && sj[3] == s@[j + 3] && sj[4] == s@[j + 4] && sj[5]
                    == s@[j + 5]);
                let h1 = hex_val_x(s[j + 2]);
                let h2 = hex_val_x(s[j + 3]);
                let h3 = hex_val_x(s[j + 4]);
                let h4 = hex_val_x(s[j + 5]);
                if h1 < 0 || h2 < 0 || h3 < 0 || h4 < 0 {
                    return None;
                }
                let v: u32 = (((h1 as u32) * 16 + (h2 as u32)) * 16 + (h3 as u32)) * 16 + (
                h4 as u32);
                if 0xD800 <= v && v < 0xE000 {
                    return None;
                }
                let d = match char_from_u32(v) {
                    Some(c2) => c2,
                    None => {
                        proof {
                            assert(vstd::utf8::is_scalar(v));
                            assert(false);
                        }
                        return None;
                    },
                };
                proof {
                    vstd::utf8::char_u32_cast(d, v);
                    assert(d == code_char(v));
                    lemma_skip_skip(s@, j as int, 6);
                    lemma_opt_prepend_assoc(out@, seq![d], p_jstr(s@.skip(j + 6)));
                    assert(out@.push(d) =~= out@ + seq![d]);
                }
                out.push(d);
                j = j + 6;
            } else {
                match esc_code_x(e) {
                    None => {
                        return None;
                    },
                    Some(d) => {
                        proof {
                            lemma_skip_skip(s@, j as int, 2);
                            lemma_opt_prepend_assoc(out@, seq![d], p_jstr(s@.skip(j + 2)));
                            assert(out@.push(d) =~= out@ + seq![d]);
                        }
                        out.push(d);
                        j = j + 2;
                    },
                }
            }
        } else if (c as u32) < 32 {
            return None;
        } else {
            proof {
                lemma_skip_skip(s@, j as int, 1);
                lemma_opt_prepend_assoc(out@, seq![c], p_jstr(s@.skip(j + 1)));
                assert(out@.push(c) =~= out@ + seq![c]);
            }
            out.push(c);
            j = j + 1;
        }
    }
}

} // verus!
