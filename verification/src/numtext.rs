//! Decimal text for the ledger's numbers: identifiers rendered as plain
//! digit runs, and cent amounts rendered with a sign and two fraction
//! digits. The amount parser takes the JSON number forms — an integer, or
//! a dot with one or more fraction digits, where digits past the second
//! must be zeros to keep the cent value exact. Parsing undoes rendering,
//! which the lemmas here prove.

use vstd::prelude::*;
use vstd::arithmetic::div_mod::lemma_fundamental_div_mod;

verus! {

/// Largest whole-unit part such that `units * 100 + 99` still fits the
/// magnitude of every `i64` cent amount.
pub const UNITS_MAX: u64 = 92233720368547758;

/// Magnitude of `i64::MIN`, the largest magnitude a cent amount can have.
pub const CENTS_MAG_MAX: u64 = 9223372036854775808;

pub open spec fn digit_val(c: char) -> int {
    if c == '0' {
        0
    } else if c == '1' {
        1
    } else if c == '2' {
        2
    } else if c == '3' {
        3
    } else if c == '4' {
        4
    } else if c == '5' {
        5
    } else if c == '6' {
        6
    } else if c == '7' {
        7
    } else if c == '8' {
        8
    } else if c == '9' {
        9
    } else {
        -1
    }
}

pub open spec fn is_digit(c: char) -> bool {
    digit_val(c) >= 0
}

pub open spec fn digit_char(d: int) -> char {
    if d == 0 {
        '0'
    } else if d == 1 {
        '1'
    } else if d == 2 {
        '2'
    } else if d == 3 {
        '3'
    } else if d == 4 {
        '4'
    } else if d == 5 {
        '5'
    } else if d == 6 {
        '6'
    } else if d == 7 {
        '7'
    } else if d == 8 {
        '8'
    } else {
        '9'
    }
}

/// Decimal digits of `n`, most significant first, no leading zeros.
pub open spec fn dec_rep(n: nat) -> Seq<char>
    decreases n,
{
    if n < 10 {
        seq![digit_char(n as int)]
    } else {
        dec_rep(n / 10) + seq![digit_char((n % 10) as int)]
    }
}

pub open spec fn pow10(k: nat) -> nat
    decreases k,
{
    if k == 0 {
        1
    } else {
        10 * pow10((k - 1) as nat)
    }
}

/// Greedy run of digits folded onto `acc`; fails past `bound`.
pub open spec fn p_digits(s: Seq<char>, acc: nat, bound: nat) -> Option<(nat, Seq<char>)>
    decreases s.len(),
{
    if s.len() == 0 || !is_digit(s[0]) {
        Some((acc, s))
    } else {
        let v = acc * 10 + digit_val(s[0]);
        if v > bound {
            None
        } else {
            p_digits(s.skip(1), v as nat, bound)
        }
    }
}

/// A canonical decimal number: a single `0`, or a nonzero leading digit
/// followed by a greedy digit run, never larger than `bound`.
pub open spec fn p_nat(s: Seq<char>, bound: nat) -> Option<(nat, Seq<char>)> {
    if s.len() == 0 {
        None
    } else if s[0] == '0' {
        Some((0, s.skip(1)))
    } else if !is_digit(s[0]) {
        None
    } else {
        p_digits(s, 0, bound)
    }
}

/// Cent amount as text: optional minus sign, whole units, a dot, and two
/// fraction digits.
pub open spec fn money_rep(c: int) -> Seq<char> {
    let a = if c < 0 {
        -c
    } else {
        c
    };
    let sign: Seq<char> = if c < 0 {
        seq!['-']
    } else {
        Seq::empty()
    };
    sign + dec_rep((a / 100) as nat) + seq![
        '.',
        digit_char((a % 100) / 10),
        digit_char((a % 100) % 10),
    ]
}

/// A run of digits that must all be `0`: fraction digits past the second
/// carry no cent value, so only zeros there keep the amount exact.
pub open spec fn p_zeros(s: Seq<char>) -> Option<Seq<char>>
    decreases s.len(),
{
    if s.len() == 0 || !is_digit(s[0]) {
        Some(s)
    } else if s[0] == '0' {
        p_zeros(s.skip(1))
    } else {
        None
    }
}

/// One or more fraction digits, worth their first two places in cents.
pub open spec fn p_frac(s: Seq<char>) -> Option<(int, Seq<char>)> {
    if s.len() == 0 || !is_digit(s[0]) {
        None
    } else if s.len() >= 2 && is_digit(s[1]) {
        match p_zeros(s.skip(2)) {
            None => None,
            Some(r) => Some((digit_val(s[0]) * 10 + digit_val(s[1]), r)),
        }
    } else {
        Some((digit_val(s[0]) * 10, s.skip(1)))
    }
}

/// A JSON number worth a whole number of cents: optional minus sign,
/// whole units, and an optional dot with one or more fraction digits.
pub open spec fn p_money(s: Seq<char>) -> Option<(int, Seq<char>)> {
    let neg = s.len() > 0 && s[0] == '-';
    let s1 = if neg {
        s.skip(1)
    } else {
        s
    };
    match p_nat(s1, UNITS_MAX as nat) {
        None => None,
        Some((units, s2)) => {
            let fr = if s2.len() > 0 && s2[0] == '.' {
                p_frac(s2.skip(1))
            } else {
                Some((0, s2))
            };
            match fr {
                None => None,
                Some((frac, s3)) => {
                    let a = units * 100 + frac;
                    let limit: int = if neg {
                        CENTS_MAG_MAX as int
                    } else {
                        i64::MAX as int
                    };
                    if a > limit {
                        None
                    } else {
                        Some((if neg { -a } else { a as int }, s3))
                    }
                },
            }
        },
    }
}

pub proof fn lemma_dec_rep_head(n: nat)
    ensures
        dec_rep(n).len() >= 1,
        is_digit(dec_rep(n)[0]),
        n >= 1 ==> dec_rep(n)[0] != '0',
    decreases n,
{
    if n >= 10 {
        lemma_dec_rep_head(n / 10);
    }
}

proof fn lemma_p_digits_rep(n: nat, acc: nat, bound: nat, rest: Seq<char>)
    requires
        acc * pow10(dec_rep(n).len()) + n <= bound,
    ensures
        p_digits(dec_rep(n) + rest, acc, bound) == p_digits(
            rest,
            (acc * pow10(dec_rep(n).len()) + n) as nat,
            bound,
        ),
    decreases n,
{
    let s = dec_rep(n) + rest;
    if n < 10 {
        assert(dec_rep(n) == seq![digit_char(n as int)]);
        assert(s[0] == digit_char(n as int));
        assert(is_digit(s[0]) && digit_val(s[0]) == n as int);
        assert(pow10(0) == 1);
        assert(pow10(1) == 10);
        assert(acc * 10 + n <= bound);
        assert(s.skip(1) =~= rest);
    } else {
        let hi = n / 10;
        let lo = n % 10;
        let k = dec_rep(hi).len();
        lemma_fundamental_div_mod(n as int, 10);
        assert(dec_rep(n) == dec_rep(hi) + seq![digit_char(lo as int)]);
        assert(dec_rep(n).len() == k + 1);
        assert(pow10(k + 1) == 10 * pow10(k));
        let mid = seq![digit_char(lo as int)] + rest;
        assert(s =~= dec_rep(hi) + mid);
        // (acc * pow10(k) + hi) * 10 + lo == acc * pow10(k + 1) + n
        assert((acc * pow10(k) + hi) * 10 == acc * (pow10(k) * 10) + hi * 10) by (nonlinear_arith);
        assert((acc * pow10(k) + hi) * 10 + lo == acc * pow10((k + 1) as nat) + n);
        let a1 = (acc * pow10(k) + hi) as nat;
        assert(a1 * 10 + lo <= bound);
        assert(acc * pow10(k) + hi <= bound);
        lemma_p_digits_rep(hi, acc, bound, mid);
        assert(p_digits(s, acc, bound) == p_digits(mid, a1, bound));
        // one more digit step on `mid`
        assert(mid[0] == digit_char(lo as int));
        assert(is_digit(mid[0]) && digit_val(mid[0]) == lo as int);
        assert(mid.skip(1) =~= rest);
        assert(p_digits(mid, a1, bound) == p_digits(rest, (a1 * 10 + lo) as nat, bound));
    }
}

pub proof fn lemma_p_nat_rep(n: nat, bound: nat, rest: Seq<char>)
    requires
        n <= bound,
        rest.len() == 0 || !is_digit(rest[0]),
    ensures
        p_nat(dec_rep(n) + rest, bound) == Some((n, rest)),
{
    let s = dec_rep(n) + rest;
    lemma_dec_rep_head(n);
    assert(s[0] == dec_rep(n)[0]);
    if n == 0 {
        assert(dec_rep(0) == seq![digit_char(0)]);
        assert(s[0] == '0');
        assert(s.skip(1) =~= rest);
    } else {
        assert(s[0] != '0');
        assert(is_digit(s[0]));
        assert(s.len() > 0);
        lemma_p_digits_rep(n, 0, bound, rest);
        assert(0 * pow10(dec_rep(n).len()) == 0);
        assert(p_digits(s, 0, bound) == p_digits(rest, n, bound));
        assert(p_digits(rest, n, bound) == Some((n, rest)));
    }
}

pub proof fn lemma_p_money_rep(c: int, rest: Seq<char>)
    requires
        i64::MIN <= c <= i64::MAX,
        rest.len() == 0 || !is_digit(rest[0]),
    ensures
        p_money(money_rep(c) + rest) == Some((c, rest)),
{
    let a: int = if c < 0 {
        -c
    } else {
        c
    };
    let units = (a / 100) as nat;
    let tail = seq!['.', digit_char((a % 100) / 10), digit_char((a % 100) % 10)];
    let s = money_rep(c) + rest;
    lemma_fundamental_div_mod(a, 100);
    lemma_fundamental_div_mod(a % 100, 10);
    lemma_dec_rep_head(units);
    if c < 0 {
        assert(money_rep(c) == seq!['-'] + dec_rep(units) + tail);
        assert(s[0] == '-');
        assert(s.skip(1) =~= dec_rep(units) + (tail + rest));
        lemma_p_nat_rep(units, UNITS_MAX as nat, tail + rest);
        let s2 = tail + rest;
        assert(s2[0] == '.' && s2[1] == digit_char((a % 100) / 10) && s2[2] == digit_char(
            (a % 100) % 10,
        ));
        assert(digit_val(s2[1]) == (a % 100) / 10 && digit_val(s2[2]) == (a % 100) % 10);
        let f = s2.skip(1);
        assert(f =~= seq![digit_char((a % 100) / 10), digit_char((a % 100) % 10)] + rest);
        assert(f[0] == s2[1] && f[1] == s2[2]);
        assert(is_digit(f[0]) && is_digit(f[1]));
        assert(f.skip(2) =~= rest);
        assert(p_zeros(rest) == Some(rest));
        assert(p_frac(f) == Some((digit_val(s2[1]) * 10 + digit_val(s2[2]), rest)));
        assert(units * 100 + digit_val(s2[1]) * 10 + digit_val(s2[2]) == a);
        assert(a <= CENTS_MAG_MAX as int);
    } else {
        assert(money_rep(c) == Seq::<char>::empty() + dec_rep(units) + tail);
        assert(s =~= dec_rep(units) + (tail + rest));
        assert(s[0] == dec_rep(units)[0]);
        assert(s[0] != '-');
        lemma_p_nat_rep(units, UNITS_MAX as nat, tail + rest);
        let s2 = tail + rest;
        assert(s2[0] == '.' && s2[1] == digit_char((a % 100) / 10) && s2[2] == digit_char(
            (a % 100) % 10,
        ));
        assert(digit_val(s2[1]) == (a % 100) / 10 && digit_val(s2[2]) == (a % 100) % 10);
        let f = s2.skip(1);
        assert(f =~= seq![digit_char((a % 100) / 10), digit_char((a % 100) % 10)] + rest);
        assert(f[0] == s2[1] && f[1] == s2[2]);
        assert(is_digit(f[0]) && is_digit(f[1]));
        assert(f.skip(2) =~= rest);
        assert(p_zeros(rest) == Some(rest));
        assert(p_frac(f) == Some((digit_val(s2[1]) * 10 + digit_val(s2[2]), rest)));
        assert(units * 100 + digit_val(s2[1]) * 10 + digit_val(s2[2]) == a);
        assert(a <= i64::MAX as int);
    }
}

// ---------------------------------------------------------------------------
// Executable rendering
// ---------------------------------------------------------------------------

fn digit_char_x(d: u64) -> (c: char)
    requires
        d < 10,
    ensures
        c == digit_char(d as int),
{
    match d {
        0 => '0',
        1 => '1',
        2 => '2',
        3 => '3',
        4 => '4',
        5 => '5',
        6 => '6',
        7 => '7',
        8 => '8',
        _ => '9',
    }
}

fn digit_val_x(c: char) -> (d: i8)
    ensures
        d as int == digit_val(c),
{
    match c {
        '0' => 0,
        '1' => 1,
        '2' => 2,
        '3' => 3,
        '4' => 4,
        '5' => 5,
        '6' => 6,
        '7' => 7,
        '8' => 8,
        '9' => 9,
        _ => -1,
    }
}

/// Append the decimal digits of `n` to `out`.
pub fn push_dec(out: &mut Vec<char>, n: u64)
    ensures
        final(out)@ == old(out)@ + dec_rep(n as nat),
    decreases n,
{
    if n < 10 {
        out.push(digit_char_x(n));
        assert(out@ =~= old(out)@ + dec_rep(n as nat));
    } else {
        push_dec(out, n / 10);
        out.push(digit_char_x(n % 10));
        assert(out@ =~= old(out)@ + dec_rep(n as nat));
    }
}

/// Append the cent amount `c` as signed units-dot-fraction text.
pub fn push_money(out: &mut Vec<char>, c: i64)
    ensures
        final(out)@ == old(out)@ + money_rep(c as int),
{
    let a: u64 = if c < 0 {
        if c == i64::MIN {
            CENTS_MAG_MAX
        } else {
            (-c) as u64
        }
    } else {
        c as u64
    };
    if c < 0 {
        out.push('-');
    }
    push_dec(out, a / 100);
    out.push('.');
    out.push(digit_char_x((a % 100) / 10));
    out.push(digit_char_x((a % 100) % 10));
    assert(out@ =~= old(out)@ + money_rep(c as int));
}

// ---------------------------------------------------------------------------
// Executable parsing
// ---------------------------------------------------------------------------

proof fn lemma_skip_skip(s: Seq<char>, i: int, k: int)
    requires
        0 <= i,
        0 <= k,
        i + k <= s.len(),
    ensures
        s.skip(i).skip(k) == s.skip(i + k),
{
    assert(s.skip(i).skip(k) =~= s.skip(i + k));
}

/// Parse a canonical decimal number no larger than `bound`, starting at `i`.
pub fn parse_dec(s: &Vec<char>, i: usize, bound: u64) -> (r: Option<(u64, usize)>)
    requires
        i <= s.len(),
    ensures
        match r {
            Some((v, j)) => {
                &&& i <= j <= s.len()
                &&& v <= bound
                &&& p_nat(s@.skip(i as int), bound as nat) == Some((v as nat, s@.skip(j as int)))
            },
            None => p_nat(s@.skip(i as int), bound as nat) is None,
        },
{
    let ghost s0 = s@.skip(i as int);
    if i == s.len() {
        return None;
    }
    assert(s0[0] == s@[i as int]);
    let c = s[i];
    if c == '0' {
        proof {
            lemma_skip_skip(s@, i as int, 1);
        }
        return Some((0, i + 1));
    }
    let d0 = digit_val_x(c);
    if d0 < 0 {
        return None;
    }
    let mut j: usize = i;
    let mut acc: u64 = 0;
    loop
        invariant
            i <= j <= s.len(),
            acc <= bound,
            i <= s.len(),
            s0 == s@.skip(i as int),
            s0.len() > 0 && s0[0] != '0' && is_digit(s0[0]),
            p_digits(s0, 0, bound as nat) == p_digits(s@.skip(j as int), acc as nat, bound as nat),
        ensures
            i <= j <= s.len(),
            acc <= bound,
            p_digits(s0, 0, bound as nat) == p_digits(s@.skip(j as int), acc as nat, bound as nat),
            j == s.len() || !is_digit(s@[j as int]),
        decreases s.len() - j,
    {
        if j == s.len() {
            break ;
        }
        assert(s@.skip(j as int)[0] == s@[j as int]);
        let c2 = s[j];
        let d = digit_val_x(c2);
        if d < 0 {
            break ;
        }
        let v: u128 = (acc as u128) * 10 + (d as u128);
        if v > bound as u128 {
            assert(p_digits(s@.skip(j as int), acc as nat, bound as nat) is None);
            return None;
        }
        proof {
            lemma_skip_skip(s@, j as int, 1);
        }
        acc = v as u64;
        j = j + 1;
    }
    assert(p_digits(s@.skip(j as int), acc as nat, bound as nat) == Some((
        acc as nat,
        s@.skip(j as int),
    )));
    Some((acc, j))
}

/// Parse a cent amount written as signed units-dot-fraction text.
pub fn parse_money(s: &Vec<char>, i: usize) -> (r: Option<(i64, usize)>)
    requires
        i <= s.len(),
    ensures
        match r {
            Some((v, j)) => {
                &&& i <= j <= s.len()
                &&& p_money(s@.skip(i as int)) == Some((v as int, s@.skip(j as int)))
            },
            None => p_money(s@.skip(i as int)) is None,
        },
{
    let ghost s0 = s@.skip(i as int);
    let neg = i < s.len() && s[i] == '-';
    let i1 = if neg {
        i + 1
    } else {
        i
    };
    proof {
        if neg {
            assert(s0[0] == s@[i as int]);
            lemma_skip_skip(s@, i as int, 1);
        }
    }
    match parse_dec(s, i1, UNITS_MAX) {
        None => None,
        Some((u, j)) => {
            let ghost s2 = s@.skip(j as int);
            let dot = j < s.len() && s[j] == '.';
            proof {
                if j < s.len() {
                    assert(s2[0] == s@[j as int]);
                }
                if dot {
                    lemma_skip_skip(s@, j as int, 1);
                }
            }
            let (frac, j3): (u64, usize) = if dot {
                match parse_frac(s, j + 1) {
                    None => {
                        return None;
                    },
                    Some(x) => x,
                }
            } else {
                (0, j)
            };
            let a: u64 = u * 100 + frac;
            let limit: u64 = if neg {
                CENTS_MAG_MAX
            } else {
                i64::MAX as u64
            };
            if a > limit {
                return None;
            }
            let v: i64 = if neg {
                if a == CENTS_MAG_MAX {
                    i64::MIN
                } else {
                    -(a as i64)
                }
            } else {
                a as i64
            };
            Some((v, j3))
        },
    }
}

/// Parse one or more fraction digits starting at `i`; only zeros may
/// follow the first two.
fn parse_frac(s: &Vec<char>, i: usize) -> (r: Option<(u64, usize)>)
    requires
        i <= s.len(),
    ensures
        match r {
            Some((f, j)) => {
                &&& i <= j <= s.len()
                &&& f <= 99
                &&& p_frac(s@.skip(i as int)) == Some((f as int, s@.skip(j as int)))
            },
            None => p_frac(s@.skip(i as int)) is None,
        },
{
    let ghost f0 = s@.skip(i as int);
    if i == s.len() {
        return None;
    }
    assert(f0[0] == s@[i as int]);
    let d1 = digit_val_x(s[i]);
    if d1 < 0 {
        return None;
    }
    if i + 1 < s.len() {
        assert(f0[1] == s@[i + 1]);
        let d2 = digit_val_x(s[i + 1]);
        if d2 >= 0 {
            let frac = (d1 as u64) * 10 + (d2 as u64);
            proof {
                lemma_skip_skip(s@, i as int, 2);
            }
            let mut m: usize = i + 2;
            loop
                invariant
                    i + 2 <= m <= s.len(),
                    i + 2 <= s.len(),
                    f0 == s@.skip(i as int),
                    f0.len() >= 2,
                    is_digit(f0[0]) && is_digit(f0[1]),
                    f0.skip(2) == s@.skip(i + 2),
                    p_zeros(s@.skip(i + 2)) == p_zeros(s@.skip(m as int)),
                ensures
                    i + 2 <= m <= s.len(),
                    p_zeros(s@.skip(i + 2)) == p_zeros(s@.skip(m as int)),
                    m == s.len() || !is_digit(s@[m as int]),
                decreases s.len() - m,
            {
                if m == s.len() {
                    break ;
                }
                assert(s@.skip(m as int)[0] == s@[m as int]);
                let dm = digit_val_x(s[m]);
                if dm < 0 {
                    break ;
                }
                if s[m] != '0' {
                    assert(p_zeros(s@.skip(m as int)) is None);
                    return None;
                }
                proof {
                    lemma_skip_skip(s@, m as int, 1);
                }
                m = m + 1;
            }
            assert(p_zeros(s@.skip(m as int)) == Some(s@.skip(m as int)));
            return Some((frac, m));
        }
    }
    proof {
        lemma_skip_skip(s@, i as int, 1);
    }
    Some(((d1 as u64) * 10, i + 1))
}

} // verus!
