//! The persisted form of the ledger: a JSON array of transaction objects,
//! in insertion order. The encoder writes one canonical rendering; the
//! decoder accepts JSON more widely — whitespace between tokens, integer
//! or fraction forms of the amount, and the JSON string escapes — while
//! the fields keep one fixed order. Encoding and decoding are the
//! ledger's own logic, specified character by character, and the
//! round-trip law is proved here.

use vstd::prelude::*;
use crate::ledger::models;
use crate::ledger::Transaction;
use crate::ledger::TransactionType;
use crate::ledger::TxRec;
use crate::numtext::dec_rep;
use crate::numtext::is_digit;
use crate::numtext::lemma_dec_rep_head;
use crate::numtext::lemma_p_money_rep;
use crate::numtext::lemma_p_nat_rep;
use crate::numtext::money_rep;
use crate::numtext::p_money;
use crate::numtext::p_nat;
use crate::numtext::parse_dec;
use crate::numtext::parse_money;
use crate::numtext::push_dec;
use crate::numtext::push_money;
use crate::strtext::chars_to_string;
use crate::strtext::esc_rep;
use crate::strtext::is_ws;
use crate::strtext::lemma_p_jstr_rep;
use crate::strtext::lemma_skip_skip;
use crate::strtext::p_jstr;
use crate::strtext::p_ws;
use crate::strtext::parse_jstr;
use crate::strtext::push_escaped;
use crate::strtext::push_str_chars;
use crate::strtext::skip_ws;
use crate::strtext::str_to_chars;
use vstd::string::StrSliceExecFns;

verus! {

/// A persisted ledger that cannot be decoded: an unrecoverable startup
/// state, surfaced to the caller instead of aborting here.
#[derive(Clone, Copy, PartialEq, Eq, Structural, Debug)]
pub enum JsonError {
    Malformed,
}

// ---------------------------------------------------------------------------
// The canonical rendering
// ---------------------------------------------------------------------------

pub open spec fn k_id() -> Seq<char> {
    "\"id\""@
}

pub open spec fn k_amount() -> Seq<char> {
    "\"amount\""@
}

pub open spec fn k_category() -> Seq<char> {
    "\"category\""@
}

pub open spec fn k_type() -> Seq<char> {
    "\"transaction_type\""@
}

pub open spec fn k_time() -> Seq<char> {
    "\"time_stamp\""@
}

pub open spec fn k_desc() -> Seq<char> {
    "\"description\""@
}

pub open spec fn lit_income() -> Seq<char> {
    "Income\""@
}

pub open spec fn lit_expense() -> Seq<char> {
    "Expense\""@
}

pub open spec fn kind_lit(k: TransactionType) -> Seq<char> {
    match k {
        TransactionType::Income => lit_income(),
        TransactionType::Expense => lit_expense(),
    }
}

/// The id, amount, category and kind fields of one rendered object.
/// Opaque so that whole-object reasoning can treat it as one block.
#[verifier::opaque]
pub open spec fn tx_head_rep(t: TxRec) -> Seq<char> {
    seq!['{'] + k_id() + seq![':'] + dec_rep(t.id as nat) + seq![','] + k_amount() + seq![':']
        + money_rep(t.amount_cents as int) + seq![','] + k_category() + seq![':'] + seq!['"']
        + esc_rep(t.category) + seq!['"'] + seq![','] + k_type() + seq![':'] + seq!['"'] + kind_lit(
        t.transaction_type,
    )
}

/// The time stamp and description fields and the closing brace.
#[verifier::opaque]
pub open spec fn tx_tail_rep(t: TxRec) -> Seq<char> {
    seq![','] + k_time() + seq![':'] + seq!['"'] + esc_rep(t.time_stamp) + seq!['"'] + seq![',']
        + k_desc() + seq![':'] + seq!['"'] + esc_rep(t.description) + seq!['"'] + seq!['}']
}

/// One transaction as one JSON object, fields in fixed order, no
/// whitespace.
pub open spec fn tx_rep(t: TxRec) -> Seq<char> {
    tx_head_rep(t) + tx_tail_rep(t)
}

/// The comma-separated objects of a non-empty array.
pub open spec fn arr_body(ts: Seq<TxRec>) -> Seq<char>
    decreases ts.len(),
{
    if ts.len() == 0 {
        Seq::empty()
    } else if ts.len() == 1 {
        tx_rep(ts[0])
    } else {
        tx_rep(ts[0]) + seq![','] + arr_body(ts.skip(1))
    }
}

/// The whole persisted file: a bracketed array in insertion order.
pub open spec fn arr_rep(ts: Seq<TxRec>) -> Seq<char> {
    seq!['['] + arr_body(ts) + seq![']']
}

// ---------------------------------------------------------------------------
// Parsing, at the specification level
// ---------------------------------------------------------------------------

pub open spec fn p_lit(s: Seq<char>, lit: Seq<char>) -> Option<Seq<char>> {
    if lit.len() <= s.len() && s.subrange(0, lit.len() as int) == lit {
        Some(s.skip(lit.len() as int))
    } else {
        None
    }
}

/// One punctuation token, with whitespace allowed before it.
pub open spec fn p_tok(s: Seq<char>, c: char) -> Option<Seq<char>> {
    let s1 = p_ws(s);
    if s1.len() > 0 && s1[0] == c {
        Some(s1.skip(1))
    } else {
        None
    }
}

/// One quoted object key followed by its colon, with whitespace around
/// both.
pub open spec fn p_key(s: Seq<char>, key: Seq<char>) -> Option<Seq<char>> {
    match p_lit(p_ws(s), key) {
        None => None,
        Some(s1) => p_tok(s1, ':'),
    }
}

pub open spec fn p_kind(s: Seq<char>) -> Option<(TransactionType, Seq<char>)> {
    match p_lit(s, lit_income()) {
        Some(r) => Some((TransactionType::Income, r)),
        None => match p_lit(s, lit_expense()) {
            Some(r) => Some((TransactionType::Expense, r)),
            None => None,
        },
    }
}

pub open spec fn p_tx(s: Seq<char>) -> Option<(TxRec, Seq<char>)> {
    match p_tok(s, '{') {
        None => None,
        Some(s0) => match p_key(s0, k_id()) {
            None => None,
            Some(s1) => match p_nat(p_ws(s1), u32::MAX as nat) {
                None => None,
                Some((id, s2)) => match p_tok(s2, ',') {
                    None => None,
                    Some(s3) => match p_key(s3, k_amount()) {
                        None => None,
                        Some(s4) => match p_money(p_ws(s4)) {
                            None => None,
                            Some((cents, s5)) => match p_tok(s5, ',') {
                                None => None,
                                Some(s6) => match p_key(s6, k_category()) {
                                    None => None,
                                    Some(s7) => match p_tok(s7, '"') {
                                        None => None,
                                        Some(s8) => match p_jstr(s8) {
                                            None => None,
                                            Some((cat, s9)) => match p_tok(s9, ',') {
                                                None => None,
                                                Some(s10) => match p_key(s10, k_type()) {
                                                    None => None,
                                                    Some(s11) => match p_tok(s11, '"') {
                                                        None => None,
                                                        Some(s12) => match p_kind(s12) {
                                                            None => None,
                                                            Some((k, s13)) => p_tx_tail(
                                                                s13,
                                                                id,
                                                                cents,
                                                                cat,
                                                                k,
                                                            ),
                                                        },
                                                    },
                                                },
                                            },
                                        },
                                    },
                                },
                            },
                        },
                    },
                },
            },
        },
    }
}

/// The time stamp and description fields and the closing brace.
pub open spec fn p_tx_tail(s: Seq<char>, id: nat, cents: int, cat: Seq<char>, k: TransactionType) -> Option<
    (TxRec, Seq<char>),
> {
    match p_tok(s, ',') {
        None => None,
        Some(s14) => match p_key(s14, k_time()) {
            None => None,
            Some(s15) => match p_tok(s15, '"') {
                None => None,
                Some(s16) => match p_jstr(s16) {
                    None => None,
                    Some((tsv, s17)) => match p_tok(s17, ',') {
                        None => None,
                        Some(s18) => match p_key(s18, k_desc()) {
                            None => None,
                            Some(s19) => match p_tok(s19, '"') {
                                None => None,
                                Some(s20) => match p_jstr(s20) {
                                    None => None,
                                    Some((desc, s21)) => match p_tok(s21, '}') {
                                        None => None,
                                        Some(s22) => Some(
                                            (
                                                TxRec {
                                                    id: id as u32,
                                                    amount_cents: cents as i64,
                                                    category: cat,
                                                    transaction_type: k,
                                                    time_stamp: tsv,
                                                    description: desc,
                                                },
                                                s22,
                                            ),
                                        ),
                                    },
                                },
                            },
                        },
                    },
                },
            },
        },
    }
}

pub open spec fn opt_prepend_tx(t: TxRec, o: Option<(Seq<TxRec>, Seq<char>)>) -> Option<
    (Seq<TxRec>, Seq<char>),
> {
    match o {
        None => None,
        Some((ts, r)) => Some((seq![t] + ts, r)),
    }
}

/// One or more objects, comma separated, up to and including the closing
/// bracket.
pub open spec fn p_elems(s: Seq<char>) -> Option<(Seq<TxRec>, Seq<char>)>
    decreases s.len(),
{
    match p_tx(s) {
        None => None,
        Some((t, s1)) => {
            let s2 = p_ws(s1);
            if s2.len() == 0 {
                None
            } else if s2[0] == ']' {
                Some((seq![t], s2.skip(1)))
            } else if s2[0] == ',' && s2.len() <= s.len() {
                opt_prepend_tx(t, p_elems(s2.skip(1)))
            } else {
                None
            }
        },
    }
}

pub open spec fn p_arr(s: Seq<char>) -> Option<(Seq<TxRec>, Seq<char>)> {
    match p_tok(s, '[') {
        None => None,
        Some(s0) => {
            let s1 = p_ws(s0);
            if s1.len() > 0 && s1[0] == ']' {
                Some((Seq::empty(), s1.skip(1)))
            } else {
                p_elems(s1)
            }
        },
    }
}

/// The decoded transaction sequence of a whole persisted file, if the
/// text is such an array with nothing but whitespace after it; nothing
/// otherwise.
pub open spec fn p_top(s: Seq<char>) -> Option<Seq<TxRec>> {
    match p_arr(s) {
        None => None,
        Some((ts, r)) => if p_ws(r).len() == 0 {
            Some(ts)
        } else {
            None
        },
    }
}

// ---------------------------------------------------------------------------
// The round-trip law
// ---------------------------------------------------------------------------

proof fn lemma_lit_facts()
    ensures
        k_id().len() == 4 && k_id()[0] == '"',
        k_amount().len() == 8 && k_amount()[0] == '"',
        k_category().len() == 10 && k_category()[0] == '"',
        k_type().len() == 18 && k_type()[0] == '"',
        k_time().len() == 12 && k_time()[0] == '"',
        k_desc().len() == 13 && k_desc()[0] == '"',
        lit_income().len() == 7 && lit_income()[0] == 'I',
        lit_expense().len() == 8 && lit_expense()[0] == 'E',
{
    reveal_strlit("\"id\"");
    reveal_strlit("\"amount\"");
    reveal_strlit("\"category\"");
    reveal_strlit("\"transaction_type\"");
    reveal_strlit("\"time_stamp\"");
    reveal_strlit("\"description\"");
    reveal_strlit("Income\"");
    reveal_strlit("Expense\"");
}

proof fn lemma_p_lit_rep(lit: Seq<char>, rest: Seq<char>)
    ensures
        p_lit(lit + rest, lit) == Some(rest),
{
    assert((lit + rest).subrange(0, lit.len() as int) =~= lit);
    assert((lit + rest).skip(lit.len() as int) =~= rest);
}

proof fn lemma_p_tok_rep(c: char, rest: Seq<char>)
    requires
        !is_ws(c),
    ensures
        p_tok(seq![c] + rest, c) == Some(rest),
{
    let s = seq![c] + rest;
    assert(s.len() > 0 && s[0] == c);
    assert(p_ws(s) == s);
    assert(s.skip(1) =~= rest);
}

proof fn lemma_p_key_rep(key: Seq<char>, rest: Seq<char>)
    requires
        key.len() > 0,
        !is_ws(key[0]),
    ensures
        p_key(key + seq![':'] + rest, key) == Some(rest),
{
    let s = key + seq![':'] + rest;
    assert(s[0] == key[0]);
    assert(p_ws(s) == s);
    assert(s =~= key + (seq![':'] + rest));
    lemma_p_lit_rep(key, seq![':'] + rest);
    lemma_p_tok_rep(':', rest);
}

proof fn lemma_p_kind_rep(k: TransactionType, rest: Seq<char>)
    ensures
        p_kind(kind_lit(k) + rest) == Some((k, rest)),
{
    lemma_lit_facts();
    let inp = kind_lit(k) + rest;
    match k {
        TransactionType::Income => {
            lemma_p_lit_rep(lit_income(), rest);
        },
        TransactionType::Expense => {
            lemma_p_lit_rep(lit_expense(), rest);
            assert(inp[0] == 'E');
            if lit_income().len() <= inp.len() {
                assert(inp.subrange(0, lit_income().len() as int)[0] == 'E');
                assert(p_lit(inp, lit_income()) is None);
            }
        },
    }
}

#[verifier::rlimit(100)]
proof fn lemma_p_tx_tail_rep(t: TxRec, rest: Seq<char>)
    ensures
        p_tx_tail(
            tx_tail_rep(t) + rest,
            t.id as nat,
            t.amount_cents as int,
            t.category,
            t.transaction_type,
        ) == Some((t, rest)),
{
    reveal(tx_tail_rep);
    lemma_lit_facts();
    let a22 = seq!['}'] + rest;
    let a21 = esc_rep(t.description) + seq!['"'] + a22;
    let a20 = seq!['"'] + a21;
    let a19 = k_desc() + seq![':'] + a20;
    let a18 = seq![','] + a19;
    let a17 = esc_rep(t.time_stamp) + seq!['"'] + a18;
    let a16 = seq!['"'] + a17;
    let a15 = k_time() + seq![':'] + a16;
    let inp = tx_tail_rep(t) + rest;
    assert(inp =~= seq![','] + a15);
    lemma_p_tok_rep(',', a15);
    assert(a15 =~= k_time() + seq![':'] + a16);
    lemma_p_key_rep(k_time(), a16);
    lemma_p_tok_rep('"', a17);
    lemma_p_jstr_rep(t.time_stamp, a18);
    lemma_p_tok_rep(',', a19);
    assert(a19 =~= k_desc() + seq![':'] + a20);
    lemma_p_key_rep(k_desc(), a20);
    lemma_p_tok_rep('"', a21);
    lemma_p_jstr_rep(t.description, a22);
    lemma_p_tok_rep('}', rest);
    let parsed = TxRec {
        id: ((t.id as nat) as u32),
        amount_cents: ((t.amount_cents as int) as i64),
        category: t.category,
        transaction_type: t.transaction_type,
        time_stamp: t.time_stamp,
        description: t.description,
    };
    assert(parsed =~= t);
}

#[verifier::rlimit(100)]
proof fn lemma_p_tx_rep(t: TxRec, rest: Seq<char>)
    ensures
        p_tx(tx_rep(t) + rest) == Some((t, rest)),
{
    reveal(tx_head_rep);
    lemma_lit_facts();
    lemma_dec_rep_head(t.id as nat);
    let a14 = tx_tail_rep(t) + rest;
    let a13 = kind_lit(t.transaction_type) + a14;
    let a12 = seq!['"'] + a13;
    let a11 = k_type() + seq![':'] + a12;
    let a10 = seq![','] + a11;
    let a9 = esc_rep(t.category) + seq!['"'] + a10;
    let a8 = seq!['"'] + a9;
    let a7 = k_category() + seq![':'] + a8;
    let a6 = seq![','] + a7;
    let a5 = money_rep(t.amount_cents as int) + a6;
    let a4 = k_amount() + seq![':'] + a5;
    let a3 = seq![','] + a4;
    let a2 = dec_rep(t.id as nat) + a3;
    let a1 = k_id() + seq![':'] + a2;
    let inp = tx_rep(t) + rest;
    assert(inp =~= seq!['{'] + a1);
    lemma_p_tok_rep('{', a1);
    lemma_p_key_rep(k_id(), a2);
    assert(a2[0] == dec_rep(t.id as nat)[0]);
    assert(!is_ws(a2[0]));
    assert(p_ws(a2) == a2);
    assert(a3[0] == ',');
    lemma_p_nat_rep(t.id as nat, u32::MAX as nat, a3);
    lemma_p_tok_rep(',', a4);
    assert(a4 =~= k_amount() + seq![':'] + a5);
    lemma_p_key_rep(k_amount(), a5);
    assert(a5[0] == money_rep(t.amount_cents as int)[0]);
    assert(!is_ws(a5[0])) by {
        if t.amount_cents < 0 {
            assert(money_rep(t.amount_cents as int)[0] == '-');
        } else {
            lemma_dec_rep_head((t.amount_cents as int / 100) as nat);
            assert(money_rep(t.amount_cents as int)[0] == dec_rep(
                (t.amount_cents as int / 100) as nat,
            )[0]);
        }
    }
    assert(p_ws(a5) == a5);
    assert(a6[0] == ',');
    lemma_p_money_rep(t.amount_cents as int, a6);
    lemma_p_tok_rep(',', a7);
    assert(a7 =~= k_category() + seq![':'] + a8);
    lemma_p_key_rep(k_category(), a8);
    lemma_p_tok_rep('"', a9);
    lemma_p_jstr_rep(t.category, a10);
    lemma_p_tok_rep(',', a11);
    assert(a11 =~= k_type() + seq![':'] + a12);
    lemma_p_key_rep(k_type(), a12);
    lemma_p_tok_rep('"', a13);
    lemma_p_kind_rep(t.transaction_type, a14);
    lemma_p_tx_tail_rep(t, rest);
}

proof fn lemma_tx_rep_first(t: TxRec)
    ensures
        tx_rep(t).len() > 0,
        tx_rep(t)[0] == '{',
{
    reveal(tx_head_rep);
}

proof fn lemma_p_elems_rep(ts: Seq<TxRec>, rest: Seq<char>)
    requires
        ts.len() >= 1,
    ensures
        p_elems(arr_body(ts) + seq![']'] + rest) == Some((ts, rest)),
    decreases ts.len(),
{
    let inp = arr_body(ts) + seq![']'] + rest;
    if ts.len() == 1 {
        let s1 = seq![']'] + rest;
        assert(inp =~= tx_rep(ts[0]) + s1);
        lemma_p_tx_rep(ts[0], s1);
        assert(s1[0] == ']');
        assert(p_ws(s1) == s1);
        assert(s1.skip(1) =~= rest);
        assert(seq![ts[0]] =~= ts);
    } else {
        let tailinp = arr_body(ts.skip(1)) + seq![']'] + rest;
        let s1 = seq![','] + tailinp;
        assert(arr_body(ts) == tx_rep(ts[0]) + seq![','] + arr_body(ts.skip(1)));
        assert(inp =~= tx_rep(ts[0]) + s1);
        lemma_p_tx_rep(ts[0], s1);
        assert(s1[0] == ',');
        assert(p_ws(s1) == s1);
        assert(s1[0] != ']');
        assert(s1.len() <= inp.len());
        assert(s1.skip(1) =~= tailinp);
        lemma_p_elems_rep(ts.skip(1), rest);
        assert(seq![ts[0]] + ts.skip(1) =~= ts);
    }
}

/// Round-trip law: decoding the canonical rendering of any transaction
/// sequence yields that sequence again — same length, same order, every
/// field value equal, time stamps included.
pub proof fn lemma_json_round_trip(ts: Seq<TxRec>)
    ensures
        p_top(arr_rep(ts)) == Some(ts),
{
    lemma_lit_facts();
    let inp = arr_rep(ts);
    let empty = Seq::<char>::empty();
    if ts.len() == 0 {
        assert(arr_body(ts) == empty);
        assert(inp =~= seq!['['] + (seq![']'] + empty));
        lemma_p_tok_rep('[', seq![']'] + empty);
        let s1 = seq![']'] + empty;
        assert(p_ws(s1) == s1);
        assert(s1[0] == ']');
        assert(s1.skip(1) =~= empty);
        assert(p_ws(empty).len() == 0);
        assert(Seq::<TxRec>::empty() =~= ts);
    } else {
        let body = arr_body(ts) + seq![']'] + empty;
        assert(inp =~= seq!['['] + body);
        lemma_p_tok_rep('[', body);
        lemma_tx_rep_first(ts[0]);
        assert(body[0] == tx_rep(ts[0])[0]);
        assert(p_ws(body) == body);
        assert(body[0] != ']');
        lemma_p_elems_rep(ts, empty);
        assert(p_ws(empty).len() == 0);
    }
}

// ---------------------------------------------------------------------------
// Executable encoding
// ---------------------------------------------------------------------------

fn push_tx(out: &mut Vec<char>, t: &Transaction)
    ensures
        final(out)@ == old(out)@ + tx_rep(t@),
{
    out.push('{');
    push_str_chars(out, "\"id\"");
    out.push(':');
    push_dec(out, t.id as u64);
    out.push(',');
    push_str_chars(out, "\"amount\"");
    out.push(':');
    push_money(out, t.amount_cents);
    out.push(',');
    push_str_chars(out, "\"category\"");
    out.push(':');
    out.push('"');
    push_escaped(out, t.category.as_str());
    out.push('"');
    out.push(',');
    push_str_chars(out, "\"transaction_type\"");
    out.push(':');
    out.push('"');
    match t.transaction_type {
        TransactionType::Income => push_str_chars(out, "Income\""),
        TransactionType::Expense => push_str_chars(out, "Expense\""),
    }
    assert(out@ =~= old(out)@ + tx_head_rep(t@)) by {
        reveal(tx_head_rep);
    }
    out.push(',');
    push_str_chars(out, "\"time_stamp\"");
    out.push(':');
    out.push('"');
    push_escaped(out, t.time_stamp.as_str());
    out.push('"');
    out.push(',');
    push_str_chars(out, "\"description\"");
    out.push(':');
    out.push('"');
    push_escaped(out, t.description.as_str());
    out.push('"');
    out.push('}');
    assert(out@ =~= (old(out)@ + tx_head_rep(t@)) + tx_tail_rep(t@)) by {
        reveal(tx_tail_rep);
    }
    assert(out@ =~= old(out)@ + tx_rep(t@));
}

proof fn lemma_arr_body_push(ts: Seq<TxRec>, t: TxRec)
    requires
        ts.len() >= 1,
    ensures
        arr_body(ts.push(t)) == arr_body(ts) + seq![','] + tx_rep(t),
    decreases ts.len(),
{
    if ts.len() == 1 {
        assert(ts.push(t)[0] == ts[0]);
        assert(ts.push(t).skip(1) =~= seq![t]);
        assert(arr_body(seq![t]) == tx_rep(t));
        assert(tx_rep(ts[0]) + seq![','] + arr_body(seq![t]) =~= arr_body(ts) + seq![',']
            + tx_rep(t));
    } else {
        assert(ts.push(t)[0] == ts[0]);
        assert(ts.push(t).skip(1) =~= ts.skip(1).push(t));
        lemma_arr_body_push(ts.skip(1), t);
        assert(tx_rep(ts[0]) + seq![','] + (arr_body(ts.skip(1)) + seq![','] + tx_rep(t)) =~= (
        tx_rep(ts[0]) + seq![','] + arr_body(ts.skip(1))) + seq![','] + tx_rep(t));
    }
}

/// The whole transaction sequence in its canonical persisted form.
pub fn to_json(transactions: &Vec<Transaction>) -> (r: String)
    ensures
        r@ == arr_rep(models(transactions@)),
{
    let ghost m = models(transactions@);
    let mut out: Vec<char> = Vec::new();
    out.push('[');
    let n = transactions.len();
    if n > 0 {
        push_tx(&mut out, &transactions[0]);
        proof {
            assert(m.take(1) =~= seq![m[0]]);
            assert(out@ =~= seq!['['] + arr_body(m.take(1)));
        }
        let mut i: usize = 1;
        while i < n
            invariant
                1 <= i <= n,
                n == transactions@.len(),
                m == models(transactions@),
                m.len() == n,
                out@ == seq!['['] + arr_body(m.take(i as int)),
            decreases n - i,
        {
            out.push(',');
            push_tx(&mut out, &transactions[i]);
            proof {
                lemma_arr_body_push(m.take(i as int), m[i as int]);
                assert(m.take(i as int).push(m[i as int]) =~= m.take(i + 1));
                assert(out@ =~= seq!['['] + arr_body(m.take(i + 1)));
            }
            i = i + 1;
        }
        proof {
            assert(m.take(n as int) =~= m);
        }
    }
    out.push(']');
    proof {
        if n == 0 {
            assert(arr_body(m) == Seq::<char>::empty());
        }
        assert(out@ =~= arr_rep(m));
    }
    chars_to_string(&out)
}

// ---------------------------------------------------------------------------
// Executable decoding
// ---------------------------------------------------------------------------

fn match_lit(s: &Vec<char>, i: usize, lit: &str) -> (r: Option<usize>)
    requires
        i <= s.len(),
    ensures
        match r {
            Some(j) => {
                &&& i <= j <= s.len()
                &&& p_lit(s@.skip(i as int), lit@) == Some(s@.skip(j as int))
            },
            None => p_lit(s@.skip(i as int), lit@) is None,
        },
{
    let ghost s0 = s@.skip(i as int);
    let m = lit.unicode_len();
    if s.len() - i < m {
        return None;
    }
    let mut k: usize = 0;
    while k < m
        invariant
            k <= m,
            i <= s.len(),
            m == lit@.len(),
            i + m <= s.len(),
            s0 == s@.skip(i as int),
            s0.subrange(0, k as int) == lit@.subrange(0, k as int),
        decreases m - k,
    {
        let c = s[i + k];
        assert(s0[k as int] == s@[i + k]);
        if c != lit.get_char(k) {
            proof {
                assert(s0.subrange(0, m as int)[k as int] == s0[k as int]);
                assert(s0.subrange(0, m as int) != lit@);
            }
            return None;
        }
        assert(s0.subrange(0, k + 1 as int) =~= s0.subrange(0, k as int).push(s0[k as int]));
        assert(lit@.subrange(0, k + 1 as int) =~= lit@.subrange(0, k as int).push(lit@[k as int]));
        k = k + 1;
    }
    proof {
        assert(s0.subrange(0, m as int) == lit@.subrange(0, m as int));
        assert(lit@.subrange(0, m as int) =~= lit@);
        assert(s0.skip(m as int) =~= s@.skip(i + m));
    }
    Some(i + m)
}

fn match_tok(s: &Vec<char>, i: usize, c: char) -> (r: Option<usize>)
    requires
        i <= s.len(),
    ensures
        match r {
            Some(j) => {
                &&& i <= j <= s.len()
                &&& p_tok(s@.skip(i as int), c) == Some(s@.skip(j as int))
            },
            None => p_tok(s@.skip(i as int), c) is None,
        },
{
    let j0 = skip_ws(s, i);
    if j0 < s.len() && s[j0] == c {
        proof {
            assert(s@.skip(j0 as int)[0] == s@[j0 as int]);
            lemma_skip_skip(s@, j0 as int, 1);
        }
        Some(j0 + 1)
    } else {
        proof {
            if j0 < s.len() {
                assert(s@.skip(j0 as int)[0] == s@[j0 as int]);
            }
        }
        None
    }
}

fn match_key(s: &Vec<char>, i: usize, lit: &str) -> (r: Option<usize>)
    requires
        i <= s.len(),
    ensures
        match r {
            Some(j) => {
                &&& i <= j <= s.len()
                &&& p_key(s@.skip(i as int), lit@) == Some(s@.skip(j as int))
            },
            None => p_key(s@.skip(i as int), lit@) is None,
        },
{
    let j0 = skip_ws(s, i);
    match match_lit(s, j0, lit) {
        None => None,
        Some(j1) => match_tok(s, j1, ':'),
    }
}

fn parse_kind(s: &Vec<char>, i: usize) -> (r: Option<(TransactionType, usize)>)
    requires
        i <= s.len(),
    ensures
        match r {
            Some((k, j)) => {
                &&& i <= j <= s.len()
                &&& p_kind(s@.skip(i as int)) == Some((k, s@.skip(j as int)))
            },
            None => p_kind(s@.skip(i as int)) is None,
        },
{
    match match_lit(s, i, "Income\"") {
        Some(j) => Some((TransactionType::Income, j)),
        None => match match_lit(s, i, "Expense\"") {
            Some(j) => Some((TransactionType::Expense, j)),
            None => None,
        },
    }
}

fn parse_tx(s: &Vec<char>, i: usize) -> (r: Option<(Transaction, usize)>)
    requires
        i <= s.len(),
    ensures
        match r {
            Some((t, j)) => {
                &&& i <= j <= s.len()
                &&& p_tx(s@.skip(i as int)) == Some((t@, s@.skip(j as int)))
            },
            None => p_tx(s@.skip(i as int)) is None,
        },
{
    let j0 = match match_tok(s, i, '{') {
        None => {
            return None;
        },
        Some(j) => j,
    };
    let j1 = match match_key(s, j0, "\"id\"") {
        None => {
            return None;
        },
        Some(j) => j,
    };
    let jw1 = skip_ws(s, j1);
    let (id64, j2) = match parse_dec(s, jw1, 0xffff_ffff) {
        None => {
            return None;
        },
        Some(x) => x,
    };
    let j3 = match match_tok(s, j2, ',') {
        None => {
            return None;
        },
        Some(j) => j,
    };
    let j4 = match match_key(s, j3, "\"amount\"") {
        None => {
            return None;
        },
        Some(j) => j,
    };
    let jw2 = skip_ws(s, j4);
    let (cents, j5) = match parse_money(s, jw2) {
        None => {
            return None;
        },
        Some(x) => x,
    };
    let j6 = match match_tok(s, j5, ',') {
        None => {
            return None;
        },
        Some(j) => j,
    };
    let j7 = match match_key(s, j6, "\"category\"") {
        None => {
            return None;
        },
        Some(j) => j,
    };
    let j8 = match match_tok(s, j7, '"') {
        None => {
            return None;
        },
        Some(j) => j,
    };
    let (catv, j9) = match parse_jstr(s, j8) {
        None => {
            return None;
        },
        Some(x) => x,
    };
    let j10 = match match_tok(s, j9, ',') {
        None => {
            return None;
        },
        Some(j) => j,
    };
    let j11 = match match_key(s, j10, "\"transaction_type\"") {
        None => {
            return None;
        },
        Some(j) => j,
    };
    let j12 = match match_tok(s, j11, '"') {
        None => {
            return None;
        },
        Some(j) => j,
    };
    let (kind, j13) = match parse_kind(s, j12) {
        None => {
            return None;
        },
        Some(x) => x,
    };
    let j14 = match match_tok(s, j13, ',') {
        None => {
            return None;
        },
        Some(j) => j,
    };
    let j15 = match match_key(s, j14, "\"time_stamp\"") {
        None => {
            return None;
        },
        Some(j) => j,
    };
    let j16 = match match_tok(s, j15, '"') {
        None => {
            return None;
        },
        Some(j) => j,
    };
    let (tsv, j17) = match parse_jstr(s, j16) {
        None => {
            return None;
        },
        Some(x) => x,
    };
    let j18 = match match_tok(s, j17, ',') {
        None => {
            return None;
        },
        Some(j) => j,
    };
    let j19 = match match_key(s, j18, "\"description\"") {
        None => {
            return None;
        },
        Some(j) => j,
    };
    let j20 = match match_tok(s, j19, '"') {
        None => {
            return None;
        },
        Some(j) => j,
    };
    let (descv, j21) = match parse_jstr(s, j20) {
        None => {
            return None;
        },
        Some(x) => x,
    };
    let j22 = match match_tok(s, j21, '}') {
        None => {
            return None;
        },
        Some(j) => j,
    };
    let t = Transaction {
        id: id64 as u32,
        amount_cents: cents,
        category: chars_to_string(&catv),
        transaction_type: kind,
        time_stamp: chars_to_string(&tsv),
        description: chars_to_string(&descv),
    };
    proof {
        let rec = TxRec {
            id: ((id64 as nat) as u32),
            amount_cents: ((cents as int) as i64),
            category: catv@,
            transaction_type: kind,
            time_stamp: tsv@,
            description: descv@,
        };
        assert(t@ =~= rec);
    }
    Some((t, j22))
}

spec fn opt_prepend_seq(pre: Seq<TxRec>, o: Option<(Seq<TxRec>, Seq<char>)>) -> Option<
    (Seq<TxRec>, Seq<char>),
> {
    match o {
        None => None,
        Some((ts, r)) => Some((pre + ts, r)),
    }
}

proof fn lemma_opt_prepend_seq_step(
    pre: Seq<TxRec>,
    t: TxRec,
    o: Option<(Seq<TxRec>, Seq<char>)>,
)
    ensures
        opt_prepend_seq(pre, opt_prepend_tx(t, o)) == opt_prepend_seq(pre.push(t), o),
{
    match o {
        None => {},
        Some((ts, r)) => {
            assert(pre + (seq![t] + ts) =~= pre.push(t) + ts);
        },
    }
}

/// Decode a whole persisted file. `Ok` exactly when the text is inside
/// the decode relation; the decoded sequence is then unique.
pub fn from_json(s: &str) -> (r: Result<Vec<Transaction>, JsonError>)
    ensures
        match r {
            Ok(ts) => p_top(s@) == Some(models(ts@)),
            Err(_) => p_top(s@) is None,
        },
{
    let v = str_to_chars(s);
    let n = v.len();
    let jb0 = match match_tok(&v, 0, '[') {
        None => {
            proof {
                assert(s@.skip(0) =~= s@);
            }
            return Err(JsonError::Malformed);
        },
        Some(j) => j,
    };
    proof {
        assert(s@.skip(0) =~= s@);
    }
    let jb = skip_ws(&v, jb0);
    let ghost s1 = p_ws(s@.skip(jb0 as int));
    if jb < n && v[jb] == ']' {
        assert(s1[0] == s@[jb as int]);
        proof {
            lemma_skip_skip(s@, jb as int, 1);
        }
        let jr = skip_ws(&v, jb + 1);
        if jr == n {
            let out: Vec<Transaction> = Vec::new();
            proof {
                assert(p_ws(s@.skip(jb + 1)).len() == 0);
                assert(models(out@) =~= Seq::<TxRec>::empty());
            }
            return Ok(out);
        }
        assert(p_ws(s@.skip(jb + 1)).len() > 0);
        return Err(JsonError::Malformed);
    }
    proof {
        if jb < n {
            assert(s1[0] == s@[jb as int]);
        }
        assert(!(s1.len() > 0 && s1[0] == ']'));
        assert(p_arr(s@) == p_elems(s@.skip(jb as int)));
    }
    let mut out: Vec<Transaction> = Vec::new();
    let mut j: usize = jb;
    loop
        invariant
            jb <= j <= n,
            n == s@.len(),
            n == v@.len(),
            v@ == s@,
            p_arr(s@) == p_elems(s@.skip(jb as int)),
            p_elems(s@.skip(jb as int)) == opt_prepend_seq(
                models(out@),
                p_elems(s@.skip(j as int)),
            ),
        decreases n - j,
    {
        let ghost sj = s@.skip(j as int);
        let (t, j2) = match parse_tx(&v, j) {
            None => {
                return Err(JsonError::Malformed);
            },
            Some(x) => x,
        };
        let jw = skip_ws(&v, j2);
        let ghost s2 = p_ws(s@.skip(j2 as int));
        let ghost pre = models(out@);
        out.push(t);
        proof {
            assert(models(out@) =~= pre.push(t@));
        }
        if jw == n {
            assert(s2.len() == 0);
            return Err(JsonError::Malformed);
        }
        assert(s2[0] == s@[jw as int]);
        if v[jw] == ']' {
            proof {
                lemma_skip_skip(s@, jw as int, 1);
                assert(s2.skip(1) =~= s@.skip(jw + 1));
                assert(p_elems(sj) == Some((seq![t@], s@.skip(jw + 1))));
                assert(pre + seq![t@] =~= models(out@));
                assert(p_elems(s@.skip(jb as int)) == Some((models(out@), s@.skip(jw + 1))));
            }
            let jr = skip_ws(&v, jw + 1);
            if jr == n {
                proof {
                    assert(p_ws(s@.skip(jw + 1)).len() == 0);
                }
                return Ok(out);
            }
            assert(p_ws(s@.skip(jw + 1)).len() > 0);
            return Err(JsonError::Malformed);
        }
        if v[jw] != ',' {
            return Err(JsonError::Malformed);
        }
        proof {
            assert(s2.len() <= sj.len()) by {
                crate::strtext::lemma_p_ws_props(s@.skip(j2 as int));
            }
            lemma_skip_skip(s@, jw as int, 1);
            assert(s2.skip(1) =~= s@.skip(jw + 1));
            assert(p_elems(sj) == opt_prepend_tx(t@, p_elems(s@.skip(jw + 1))));
            lemma_opt_prepend_seq_step(pre, t@, p_elems(s@.skip(jw + 1)));
        }
        j = jw + 1;
    }
}

/// What a startup load yields: a missing file is the expected first-run
/// state and gives an empty sequence; unreadable text is an error.
pub fn load_transactions(contents: Option<&str>) -> (r: Result<Vec<Transaction>, JsonError>)
    ensures
        match contents {
            None => r matches Ok(v) && v@.len() == 0,
            Some(s) => match r {
                Ok(ts) => p_top(s@) == Some(models(ts@)),
                Err(_) => p_top(s@) is None,
            },
        },
{
    match contents {
        None => Ok(Vec::new()),
        Some(s) => from_json(s),
    }
}

} // verus!
