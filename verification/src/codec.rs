//! The canonical text form of a block: one JSON object with the fields in
//! the fixed order index, transactions, timestamp, previous_hash, hash,
//! nonce. Numbers are decimal, texts are quoted with `"` and `\` escaped.

use vstd::prelude::*;

use crate::block::BlockView;
use crate::text::{dec_digits, esc};

verus! {

/// The opening of the object up to the index value.
pub open spec fn lit_head() -> Seq<char> {
    "{\"index\":"@
}

/// The label between the index value and the transaction list.
pub open spec fn lit_txs() -> Seq<char> {
    ",\"transactions\":["@
}

/// The label between the transaction list and the timestamp value.
pub open spec fn lit_ts() -> Seq<char> {
    ",\"timestamp\":"@
}

/// The label between the timestamp value and the previous-hash text.
pub open spec fn lit_prev() -> Seq<char> {
    ",\"previous_hash\":\""@
}

/// The label between the previous-hash text and the stored-hash text.
pub open spec fn lit_hash() -> Seq<char> {
    ",\"hash\":\""@
}

/// The label between the stored-hash text and the nonce value.
pub open spec fn lit_nonce() -> Seq<char> {
    ",\"nonce\":"@
}

/// The closing brace of the object.
pub open spec fn lit_end() -> Seq<char> {
    "}"@
}

/// A quoted text without its opening quote: the escaped characters, then
/// the closing quote.
pub open spec fn enc_str_closed(t: Seq<char>) -> Seq<char> {
    esc(t) + seq!['"']
}

/// The transaction list after its first element: for each further element a
/// comma and the quoted text, then the closing bracket.
pub open spec fn enc_more(ts: Seq<Seq<char>>) -> Seq<char>
    decreases ts.len(),
{
    if ts.len() == 0 {
        seq![']']
    } else {
        seq![',', '"'] + enc_str_closed(ts[0]) + enc_more(ts.skip(1))
    }
}

/// The transaction list without its opening bracket: the quoted elements
/// separated by commas, then the closing bracket.
pub open spec fn enc_txs_closed(ts: Seq<Seq<char>>) -> Seq<char> {
    if ts.len() == 0 {
        seq![']']
    } else {
        seq!['"'] + enc_str_closed(ts[0]) + enc_more(ts.skip(1))
    }
}

/// The canonical text of a block. Blocks with equal field values have the
/// same canonical text, character for character.
pub open spec fn encode_spec(v: BlockView) -> Seq<char> {
    lit_head() + dec_digits(v.index as nat) + lit_txs() + enc_txs_closed(v.transactions)
        + lit_ts() + dec_digits(v.timestamp as nat) + lit_prev() + enc_str_closed(
        v.previous_hash,
    ) + lit_hash() + enc_str_closed(v.hash) + lit_nonce() + dec_digits(v.nonce as nat)
        + lit_end()
}

/// Whether `lit` stands at the head of `s`; if so, what follows it.
pub open spec fn expect(s: Seq<char>, lit: Seq<char>) -> Option<Seq<char>> {
    if lit.is_prefix_of(s) {
        Some(s.skip(lit.len() as int))
    } else {
        None
    }
}

/// Consumes the maximal run of decimal digits, folding their values into
/// `acc` from the left.
pub open spec fn parse_digits(s: Seq<char>, acc: nat) -> (nat, Seq<char>)
    decreases s.len(),
{
    if s.len() > 0 && crate::text::is_digit(s[0]) {
        parse_digits(s.skip(1), acc * 10 + crate::text::digit_val(s[0]))
    } else {
        (acc, s)
    }
}

/// Reads a decimal number: the maximal run of digits, at least one.
pub open spec fn parse_number(s: Seq<char>) -> Option<(nat, Seq<char>)> {
    if s.len() > 0 && crate::text::is_digit(s[0]) {
        Some(parse_digits(s, 0))
    } else {
        None
    }
}

/// Reads a quoted text after its opening quote: the characters up to the
/// next unescaped quote, with the escapes undone.
pub open spec fn parse_string_body(s: Seq<char>) -> Option<(Seq<char>, Seq<char>)>
    decreases s.len(),
{
    if s.len() == 0 {
        None
    } else if s[0] == '"' {
        Some((Seq::empty(), s.skip(1)))
    } else if s[0] == '\\' {
        if s.len() < 2 {
            None
        } else {
            match parse_string_body(s.skip(2)) {
                Some(p) => Some((seq![s[1]] + p.0, p.1)),
                None => None,
            }
        }
    } else {
        match parse_string_body(s.skip(1)) {
            Some(p) => Some((seq![s[0]] + p.0, p.1)),
            None => None,
        }
    }
}

/// What a quoted text leaves behind is shorter than what it was read from.
pub proof fn lemma_parse_string_body_shrinks(s: Seq<char>)
    ensures
        match parse_string_body(s) {
            Some(p) => p.1.len() < s.len(),
            None => true,
        },
    decreases s.len(),
{
    if s.len() == 0 {
    } else if s[0] == '"' {
    } else if s[0] == '\\' {
        if s.len() >= 2 {
            lemma_parse_string_body_shrinks(s.skip(2));
        }
    } else {
        lemma_parse_string_body_shrinks(s.skip(1));
    }
}

/// Reads the transaction list after its first element: either the closing
/// bracket, or a comma and a quoted text and then the rest.
pub open spec fn parse_more(s: Seq<char>) -> Option<(Seq<Seq<char>>, Seq<char>)>
    decreases s.len(),
    via parse_more_decreases
{
    if s.len() == 0 {
        None
    } else if s[0] == ']' {
        Some((Seq::empty(), s.skip(1)))
    } else if s.len() >= 2 && s[0] == ',' && s[1] == '"' {
        match parse_string_body(s.skip(2)) {
            Some(p) => match parse_more(p.1) {
                Some(q) => Some((seq![p.0] + q.0, q.1)),
                None => None,
            },
            None => None,
        }
    } else {
        None
    }
}

#[via_fn]
proof fn parse_more_decreases(s: Seq<char>) {
    if s.len() >= 2 && s[0] != ']' && s[0] == ',' && s[1] == '"' {
        lemma_parse_string_body_shrinks(s.skip(2));
    }
}

/// Reads the transaction list after its opening bracket.
pub open spec fn parse_txs(s: Seq<char>) -> Option<(Seq<Seq<char>>, Seq<char>)> {
    if s.len() == 0 {
        None
    } else if s[0] == ']' {
        Some((Seq::empty(), s.skip(1)))
    } else if s[0] == '"' {
        match parse_string_body(s.skip(1)) {
            Some(p) => match parse_more(p.1) {
                Some(q) => Some((seq![p.0] + q.0, q.1)),
                None => None,
            },
            None => None,
        }
    } else {
        None
    }
}

/// Reads the tail of the canonical text from the previous-hash text on.
pub open spec fn parse_from_prev(
    index: nat,
    txs: Seq<Seq<char>>,
    ts: nat,
    s: Seq<char>,
) -> Option<BlockView>
    recommends
        index <= u32::MAX,
        ts <= u64::MAX,
{
    match parse_string_body(s) {
        None => None,
        Some(p) => match expect(p.1, lit_hash()) {
            None => None,
            Some(s1) => match parse_string_body(s1) {
                None => None,
                Some(h) => match expect(h.1, lit_nonce()) {
                    None => None,
                    Some(s2) => match parse_number(s2) {
                        None => None,
                        Some(nn) => if nn.0 > u32::MAX as nat {
                            None
                        } else {
                            match expect(nn.1, lit_end()) {
                                None => None,
                                Some(s3) => if s3.len() == 0 {
                                    Some(
                                        BlockView {
                                            index: index as u32,
                                            transactions: txs,
                                            timestamp: ts as u64,
                                            previous_hash: p.0,
                                            hash: h.0,
                                            nonce: nn.0 as u32,
                                        },
                                    )
                                } else {
                                    None
                                },
                            }
                        },
                    },
                },
            },
        },
    }
}

/// Reads the middle of the canonical text from the transaction list on.
pub open spec fn parse_from_txs(index: nat, s: Seq<char>) -> Option<BlockView>
    recommends
        index <= u32::MAX,
{
    match parse_txs(s) {
        None => None,
        Some(t) => match expect(t.1, lit_ts()) {
            None => None,
            Some(s1) => match parse_number(s1) {
                None => None,
                Some(ts) => if ts.0 > u64::MAX as nat {
                    None
                } else {
                    match expect(ts.1, lit_prev()) {
                        None => None,
                        Some(s2) => parse_from_prev(index, t.0, ts.0, s2),
                    }
                },
            },
        },
    }
}

/// Reads a whole canonical text back into the field values of a block.
/// On the canonical text of any block it recovers exactly that block's
/// fields; text of any other shape is rejected.
pub open spec fn parse_block_spec(s: Seq<char>) -> Option<BlockView> {
    match expect(s, lit_head()) {
        None => None,
        Some(s1) => match parse_number(s1) {
            None => None,
            Some(ix) => if ix.0 > u32::MAX as nat {
                None
            } else {
                match expect(ix.1, lit_txs()) {
                    None => None,
                    Some(s2) => parse_from_txs(ix.0, s2),
                }
            },
        },
    }
}

/// Ten to the power `k`.
pub open spec fn pow10(k: nat) -> nat
    decreases k,
{
    if k == 0 {
        1
    } else {
        10 * pow10((k - 1) as nat)
    }
}

/// Reading the digits of `n` folds exactly `n` into the accumulator.
proof fn lemma_parse_digits_of_dec(n: nat, rest: Seq<char>, acc: nat)
    ensures
        parse_digits(dec_digits(n) + rest, acc) == parse_digits(
            rest,
            acc * pow10(dec_digits(n).len()) + n,
        ),
    decreases n,
{
    crate::text::lemma_dec_digits_are_digits(n);
    if n < 10 {
        let s = dec_digits(n) + rest;
        assert(s[0] == crate::text::digit_char(n));
        assert(crate::text::digit_val(crate::text::digit_char(n)) == n);
        assert(s.skip(1) =~= rest);
        assert(pow10(0) == 1);
        assert(pow10(1) == 10);
    } else {
        let d = n % 10;
        let m = n / 10;
        assert(dec_digits(n) + rest =~= dec_digits(m) + (seq![crate::text::digit_char(d)]
            + rest));
        lemma_parse_digits_of_dec(m, seq![crate::text::digit_char(d)] + rest, acc);
        let l = dec_digits(m).len();
        let acc2 = acc * pow10(l) + m;
        let s2 = seq![crate::text::digit_char(d)] + rest;
        assert(s2[0] == crate::text::digit_char(d));
        assert(crate::text::digit_val(crate::text::digit_char(d)) == d);
        assert(s2.skip(1) =~= rest);
        assert(parse_digits(s2, acc2) == parse_digits(rest, acc2 * 10 + d));
        assert(dec_digits(n).len() == l + 1);
        assert(pow10(l + 1) == 10 * pow10(l));
        assert((acc * pow10(l) + m) * 10 + d == acc * (10 * pow10(l)) + (m * 10 + d))
            by (nonlinear_arith);
        assert(m * 10 + d == n) by {
            vstd::arithmetic::div_mod::lemma_fundamental_div_mod(n as int, 10);
        };
    }
}

/// Reading a number from the digits of `n` followed by a non-digit yields
/// exactly `n` and leaves exactly what followed.
pub proof fn lemma_parse_number_of_dec(n: nat, rest: Seq<char>)
    requires
        rest.len() == 0 || !crate::text::is_digit(rest[0]),
    ensures
        parse_number(dec_digits(n) + rest) == Some((n, rest)),
{
    crate::text::lemma_dec_digits_are_digits(n);
    let s = dec_digits(n) + rest;
    assert(s[0] == dec_digits(n)[0]);
    lemma_parse_digits_of_dec(n, rest, 0);
    assert(parse_digits(rest, n) == (n, rest));
}

/// Reading a quoted text back from its encoding yields exactly the original
/// text and leaves exactly what followed the closing quote.
pub proof fn lemma_parse_string_of_enc(t: Seq<char>, rest: Seq<char>)
    ensures
        parse_string_body(enc_str_closed(t) + rest) == Some((t, rest)),
    decreases t.len(),
{
    let s = enc_str_closed(t) + rest;
    if t.len() == 0 {
        assert(esc(t) =~= Seq::<char>::empty());
        assert(s =~= seq!['"'] + rest);
        assert(s[0] == '"');
        assert(s.skip(1) =~= rest);
        assert(t =~= Seq::<char>::empty());
    } else {
        let c = t[0];
        let t1 = t.skip(1);
        lemma_parse_string_of_enc(t1, rest);
        if c == '"' || c == '\\' {
            assert(s =~= seq!['\\', c] + (enc_str_closed(t1) + rest));
            assert(s[0] == '\\' && s[1] == c);
            assert(s.skip(2) =~= enc_str_closed(t1) + rest);
            assert(seq![c] + t1 =~= t);
        } else {
            assert(s =~= seq![c] + (enc_str_closed(t1) + rest));
            assert(s[0] == c);
            assert(s.skip(1) =~= enc_str_closed(t1) + rest);
            assert(seq![c] + t1 =~= t);
        }
    }
}

/// Reading the tail of a transaction list back from its encoding yields
/// exactly the encoded texts.
pub proof fn lemma_parse_more_of_enc(ts: Seq<Seq<char>>, rest: Seq<char>)
    ensures
        parse_more(enc_more(ts) + rest) == Some((ts, rest)),
    decreases ts.len(),
{
    let s = enc_more(ts) + rest;
    if ts.len() == 0 {
        assert(s =~= seq![']'] + rest);
        assert(s[0] == ']');
        assert(s.skip(1) =~= rest);
        assert(ts =~= Seq::<Seq<char>>::empty());
    } else {
        assert(s =~= seq![',', '"'] + (enc_str_closed(ts[0]) + (enc_more(ts.skip(1)) + rest)));
        assert(s[0] == ',' && s[1] == '"');
        assert(s.skip(2) =~= enc_str_closed(ts[0]) + (enc_more(ts.skip(1)) + rest));
        lemma_parse_string_of_enc(ts[0], enc_more(ts.skip(1)) + rest);
        lemma_parse_more_of_enc(ts.skip(1), rest);
        assert(seq![ts[0]] + ts.skip(1) =~= ts);
    }
}

/// Reading a transaction list back from its encoding yields exactly the
/// encoded texts.
pub proof fn lemma_parse_txs_of_enc(ts: Seq<Seq<char>>, rest: Seq<char>)
    ensures
        parse_txs(enc_txs_closed(ts) + rest) == Some((ts, rest)),
{
    let s = enc_txs_closed(ts) + rest;
    if ts.len() == 0 {
        assert(s =~= seq![']'] + rest);
        assert(s[0] == ']');
        assert(s.skip(1) =~= rest);
        assert(ts =~= Seq::<Seq<char>>::empty());
    } else {
        assert(s =~= seq!['"'] + (enc_str_closed(ts[0]) + (enc_more(ts.skip(1)) + rest)));
        assert(s[0] == '"');
        assert(s.skip(1) =~= enc_str_closed(ts[0]) + (enc_more(ts.skip(1)) + rest));
        lemma_parse_string_of_enc(ts[0], enc_more(ts.skip(1)) + rest);
        lemma_parse_more_of_enc(ts.skip(1), rest);
        assert(seq![ts[0]] + ts.skip(1) =~= ts);
    }
}

/// A label at the head of a text is found there, and reading it leaves
/// exactly what followed it.
pub proof fn lemma_expect_prefix(lit: Seq<char>, rest: Seq<char>)
    ensures
        expect(lit + rest, lit) == Some(rest),
{
    assert((lit + rest).subrange(0, lit.len() as int) =~= lit);
    assert(lit.is_prefix_of(lit + rest));
    assert((lit + rest).skip(lit.len() as int) =~= rest);
}

/// Reading the canonical text of a block recovers exactly that block's
/// field values.
#[verifier::rlimit(60)]
pub proof fn lemma_parse_of_encode(v: BlockView)
    ensures
        parse_block_spec(encode_spec(v)) == Some(v),
{
    reveal_strlit("{\"index\":");
    reveal_strlit(",\"transactions\":[");
    reveal_strlit(",\"timestamp\":");
    reveal_strlit(",\"previous_hash\":\"");
    reveal_strlit(",\"hash\":\"");
    reveal_strlit(",\"nonce\":");
    reveal_strlit("}");
    let s12 = lit_end();
    let s11 = dec_digits(v.nonce as nat) + s12;
    let s10 = lit_nonce() + s11;
    let s9 = enc_str_closed(v.hash) + s10;
    let s8 = lit_hash() + s9;
    let s7 = enc_str_closed(v.previous_hash) + s8;
    let s6 = lit_prev() + s7;
    let s5 = dec_digits(v.timestamp as nat) + s6;
    let s4 = lit_ts() + s5;
    let s3 = enc_txs_closed(v.transactions) + s4;
    let s2 = lit_txs() + s3;
    let s1 = dec_digits(v.index as nat) + s2;
    let s0 = lit_head() + s1;
    assert(encode_spec(v) =~= s0);
    lemma_expect_prefix(lit_head(), s1);
    assert(expect(s0, lit_head()) == Some(s1));
    assert(s2[0] == lit_txs()[0]);
    assert(!crate::text::is_digit(s2[0]));
    lemma_parse_number_of_dec(v.index as nat, s2);
    assert(parse_number(s1) == Some((v.index as nat, s2)));
    lemma_expect_prefix(lit_txs(), s3);
    assert(expect(s2, lit_txs()) == Some(s3));
    lemma_parse_txs_of_enc(v.transactions, s4);
    assert(parse_txs(s3) == Some((v.transactions, s4)));
    lemma_expect_prefix(lit_ts(), s5);
    assert(expect(s4, lit_ts()) == Some(s5));
    assert(s6[0] == lit_prev()[0]);
    assert(!crate::text::is_digit(s6[0]));
    lemma_parse_number_of_dec(v.timestamp as nat, s6);
    assert(parse_number(s5) == Some((v.timestamp as nat, s6)));
    lemma_expect_prefix(lit_prev(), s7);
    assert(expect(s6, lit_prev()) == Some(s7));
    lemma_parse_string_of_enc(v.previous_hash, s8);
    assert(parse_string_body(s7) == Some((v.previous_hash, s8)));
    lemma_expect_prefix(lit_hash(), s9);
    assert(expect(s8, lit_hash()) == Some(s9));
    lemma_parse_string_of_enc(v.hash, s10);
    assert(parse_string_body(s9) == Some((v.hash, s10)));
    lemma_expect_prefix(lit_nonce(), s11);
    assert(expect(s10, lit_nonce()) == Some(s11));
    assert(s12[0] == lit_end()[0]);
    assert(!crate::text::is_digit(s12[0]));
    lemma_parse_number_of_dec(v.nonce as nat, s12);
    assert(parse_number(s11) == Some((v.nonce as nat, s12)));
    lemma_expect_prefix(lit_end(), Seq::<char>::empty());
    assert(lit_end() + Seq::<char>::empty() =~= s12);
    assert(expect(s12, lit_end()) == Some(Seq::<char>::empty()));
    assert(parse_from_prev(v.index as nat, v.transactions, v.timestamp as nat, s7) == Some(v));
    assert(parse_from_txs(v.index as nat, s3) == Some(v));
    assert(parse_block_spec(encode_spec(v)) == Some(v));
}

/// Appends one quoted text, without its opening quote, to `out`.
fn append_str_closed(out: &mut Vec<char>, t: &str)
    ensures
        final(out)@ == old(out)@ + enc_str_closed(t@),
{
    crate::text::append_escaped(out, t);
    out.push('"');
    proof {
        assert(old(out)@ + enc_str_closed(t@) =~= (old(out)@ + esc(t@)).push('"'));
    }
}

/// Appends the transaction list, without its opening bracket, to `out`.
fn append_txs_closed(out: &mut Vec<char>, txs: &Vec<String>)
    ensures
        final(out)@ == old(out)@ + enc_txs_closed(txs.deep_view()),
{
    let ghost ts = txs.deep_view();
    if txs.len() == 0 {
        out.push(']');
        proof {
            assert(ts.len() == 0);
            assert(old(out)@ + enc_txs_closed(ts) =~= old(out)@.push(']'));
        }
    } else {
        out.push('"');
        proof {
            assert(ts[0] == txs[0]@);
        }
        append_str_closed(out, txs[0].as_str());
        let mut k: usize = 1;
        while k < txs.len()
            invariant
                1 <= k <= txs@.len(),
                ts == txs.deep_view(),
                ts.len() == txs@.len(),
                out@ + enc_more(ts.skip(k as int)) == old(out)@ + enc_txs_closed(ts),
            decreases txs@.len() - k,
        {
            out.push(',');
            out.push('"');
            proof {
                assert(ts[k as int] == txs[k as int]@);
            }
            append_str_closed(out, txs[k].as_str());
            proof {
                assert(ts.skip(k as int)[0] == ts[k as int]);
                assert(ts.skip(k as int).skip(1) =~= ts.skip(k + 1));
                assert(enc_more(ts.skip(k as int)) =~= seq![',', '"'] + enc_str_closed(
                    ts[k as int],
                ) + enc_more(ts.skip(k + 1)));
                assert(out@ + enc_more(ts.skip(k + 1)) =~= old(out)@ + enc_txs_closed(ts));
            }
            k = k + 1;
        }
        out.push(']');
        proof {
            assert(ts.skip(txs@.len() as int) =~= Seq::<Seq<char>>::empty());
            assert(enc_more(ts.skip(txs@.len() as int)) =~= seq![']']);
            assert(out@ =~= old(out)@ + enc_txs_closed(ts));
        }
    }
}

/// Whether the character at `j` is a decimal digit.
fn is_digit_at(v: &Vec<char>, j: usize) -> (b: bool)
    requires
        j < v@.len(),
    ensures
        b == crate::text::is_digit(v@[j as int]),
{
    let u = v[j] as u32;
    48 <= u && u <= 57
}

/// Checks for `lit` at position `i` and steps over it.
fn expect_lit(v: &Vec<char>, i: usize, lit: &str) -> (r: Option<usize>)
    requires
        i <= v@.len(),
    ensures
        expect(v@.skip(i as int), lit@) is Some <==> r is Some,
        r is Some ==> i <= r->0 <= v@.len() && expect(v@.skip(i as int), lit@)->0 == v@.skip(
            r->0 as int,
        ),
{
    let litn = lit.unicode_len();
    let n = v.len();
    if n - i < litn {
        return None;
    }
    let mut j: usize = 0;
    while j < litn
        invariant
            i <= n,
            n == v@.len(),
            j <= litn,
            litn == lit@.len(),
            i + litn <= n,
            forall|k: int| 0 <= k < j ==> v@[i + k] == lit@[k],
        decreases litn - j,
    {
        if v[i + j] != lit.get_char(j) {
            proof {
                let s = v@.skip(i as int);
                assert(s[j as int] == v@[i + j]);
                if lit@.is_prefix_of(s) {
                    assert(s.subrange(0, lit@.len() as int)[j as int] == s[j as int]);
                }
            }
            return None;
        }
        j = j + 1;
    }
    proof {
        let s = v@.skip(i as int);
        assert(lit@ =~= s.subrange(0, lit@.len() as int));
        assert(s.skip(litn as int) =~= v@.skip(i + litn));
    }
    Some(i + litn)
}

/// Reads a decimal number at position `i`; rejects one whose value does not
/// fit in sixty-four bits.
fn parse_number_exec(v: &Vec<char>, i: usize) -> (r: Option<(u64, usize)>)
    requires
        i <= v@.len(),
    ensures
        ({
            let sp = parse_number(v@.skip(i as int));
            match r {
                Some(rr) => sp is Some && (sp->0).0 == rr.0 as nat && i <= rr.1 <= v@.len()
                    && v@.skip(rr.1 as int) == (sp->0).1,
                None => sp is None || (sp->0).0 > u64::MAX,
            }
        }),
{
    let n = v.len();
    if i >= n {
        return None;
    }
    if !is_digit_at(v, i) {
        proof {
            assert(v@.skip(i as int)[0] == v@[i as int]);
        }
        return None;
    }
    proof {
        assert(v@.skip(i as int)[0] == v@[i as int]);
    }
    let mut j: usize = i;
    let mut acc: u128 = 0;
    let ghost mut g: nat = 0nat;
    while j < n && is_digit_at(v, j)
        invariant
            i <= j <= n,
            n == v@.len(),
            parse_digits(v@.skip(i as int), 0) == parse_digits(v@.skip(j as int), g),
            g <= u64::MAX ==> acc == g,
            g > u64::MAX ==> acc > u64::MAX as u128,
            acc <= u64::MAX as u128 * 10 + 9,
        decreases n - j,
    {
        let c = v[j];
        let d = (c as u32 - 48) as u128;
        proof {
            let sj = v@.skip(j as int);
            assert(sj[0] == v@[j as int]);
            assert(sj.skip(1) =~= v@.skip(j + 1));
            assert(crate::text::digit_val(v@[j as int]) == d as nat);
            if g > u64::MAX {
                assert(g * 10 + d as nat >= g) by (nonlinear_arith);
            }
        }
        if acc <= u64::MAX as u128 {
            acc = acc * 10 + d;
        }
        proof {
            g = g * 10 + d as nat;
        }
        j = j + 1;
    }
    proof {
        let sj = v@.skip(j as int);
        if j < n {
            assert(sj[0] == v@[j as int]);
        }
        assert(parse_digits(sj, g) == (g, sj));
    }
    if acc > u64::MAX as u128 {
        return None;
    }
    Some((acc as u64, j))
}

/// Reads a quoted text after its opening quote, at position `i`.
fn parse_string_exec(v: &Vec<char>, i: usize) -> (r: Option<(String, usize)>)
    requires
        i <= v@.len(),
    ensures
        ({
            let sp = parse_string_body(v@.skip(i as int));
            match r {
                Some(rr) => sp is Some && (sp->0).0 == rr.0@ && i <= rr.1 <= v@.len() && v@.skip(
                    rr.1 as int,
                ) == (sp->0).1,
                None => sp is None,
            }
        }),
{
    let n = v.len();
    let mut out: Vec<char> = Vec::new();
    let mut j: usize = i;
    loop
        invariant
            i <= j <= n,
            n == v@.len(),
            ({
                match parse_string_body(v@.skip(j as int)) {
                    Some(p) => parse_string_body(v@.skip(i as int)) == Some((out@ + p.0, p.1)),
                    None => parse_string_body(v@.skip(i as int)) is None,
                }
            }),
        decreases n - j,
    {
        if j >= n {
            return None;
        }
        let c = v[j];
        proof {
            assert(v@.skip(j as int)[0] == v@[j as int]);
        }
        if c == '"' {
            proof {
                assert(v@.skip(j as int).skip(1) =~= v@.skip(j + 1));
                assert(out@ + Seq::<char>::empty() =~= out@);
            }
            let s = crate::text::string_of(&out);
            return Some((s, j + 1));
        } else if c == '\\' {
            if j + 1 >= n {
                proof {
                    assert(v@.skip(j as int).len() < 2);
                }
                return None;
            }
            let c2 = v[j + 1];
            proof {
                let sj = v@.skip(j as int);
                assert(sj[1] == v@[j + 1]);
                assert(sj.skip(2) =~= v@.skip(j + 2));
                if parse_string_body(v@.skip(j + 2)) is Some {
                    let p = parse_string_body(v@.skip(j + 2))->0;
                    assert((out@ + seq![c2]) + p.0 =~= out@ + (seq![c2] + p.0));
                }
            }
            out.push(c2);
            j = j + 2;
        } else {
            proof {
                assert(v@.skip(j as int).skip(1) =~= v@.skip(j + 1));
                if parse_string_body(v@.skip(j + 1)) is Some {
                    let p = parse_string_body(v@.skip(j + 1))->0;
                    assert((out@ + seq![c]) + p.0 =~= out@ + (seq![c] + p.0));
                }
            }
            out.push(c);
            j = j + 1;
        }
    }
}

/// Reads the transaction list after its opening bracket, at position `i`.
fn parse_txs_exec(v: &Vec<char>, i: usize) -> (r: Option<(Vec<String>, usize)>)
    requires
        i <= v@.len(),
    ensures
        ({
            let sp = parse_txs(v@.skip(i as int));
            match r {
                Some(rr) => sp is Some && (sp->0).0 == rr.0.deep_view() && i <= rr.1 <= v@.len()
                    && v@.skip(rr.1 as int) == (sp->0).1,
                None => sp is None,
            }
        }),
{
    let n = v.len();
    if i >= n {
        return None;
    }
    let c = v[i];
    proof {
        assert(v@.skip(i as int)[0] == v@[i as int]);
    }
    if c == ']' {
        let out: Vec<String> = Vec::new();
        proof {
            assert(v@.skip(i as int).skip(1) =~= v@.skip(i + 1));
            assert(out.deep_view() =~= Seq::<Seq<char>>::empty());
        }
        return Some((out, i + 1));
    }
    if c != '"' {
        return None;
    }
    proof {
        assert(v@.skip(i as int).skip(1) =~= v@.skip(i + 1));
    }
    let first = parse_string_exec(v, i + 1);
    match first {
        None => None,
        Some((t0, j0)) => {
            let mut out: Vec<String> = Vec::new();
            out.push(t0);
            proof {
                assert(out.deep_view() =~= seq![out@[0]@]);
            }
            let mut j: usize = j0;
            loop
                invariant
                    i < j <= n,
                    n == v@.len(),
                    ({
                        match parse_more(v@.skip(j as int)) {
                            Some(q) => parse_txs(v@.skip(i as int)) == Some(
                                (out.deep_view() + q.0, q.1),
                            ),
                            None => parse_txs(v@.skip(i as int)) is None,
                        }
                    }),
                decreases n - j,
            {
                if j >= n {
                    return None;
                }
                let c2 = v[j];
                proof {
                    assert(v@.skip(j as int)[0] == v@[j as int]);
                }
                if c2 == ']' {
                    proof {
                        assert(v@.skip(j as int).skip(1) =~= v@.skip(j + 1));
                        assert(out.deep_view() + Seq::<Seq<char>>::empty() =~= out.deep_view());
                    }
                    return Some((out, j + 1));
                }
                if c2 != ',' {
                    return None;
                }
                if j + 1 >= n {
                    proof {
                        assert(v@.skip(j as int).len() < 2);
                    }
                    return None;
                }
                let c3 = v[j + 1];
                proof {
                    assert(v@.skip(j as int)[1] == v@[j + 1]);
                }
                if c3 != '"' {
                    return None;
                }
                proof {
                    assert(v@.skip(j as int).skip(2) =~= v@.skip(j + 2));
                }
                let nxt = parse_string_exec(v, j + 2);
                match nxt {
                    None => {
                        return None;
                    },
                    Some((t, j2)) => {
                        let ghost old_dv = out.deep_view();
                        out.push(t);
                        proof {
                            assert(out.deep_view() =~= old_dv.push(out@[out@.len() - 1]@));
                            if parse_more(v@.skip(j2 as int)) is Some {
                                let q = parse_more(v@.skip(j2 as int))->0;
                                assert(old_dv + (seq![t@] + q.0) =~= out.deep_view() + q.0);
                            }
                        }
                        j = j2;
                    },
                }
            }
        },
    }
}

/// Reads a block back from its canonical text. On the canonical text of any
/// block this returns exactly that block; text of any other shape is
/// rejected.
#[verifier::rlimit(60)]
pub fn parse_block(text: &str) -> (r: Option<crate::block::Block>)
    ensures
        parse_block_spec(text@) is Some <==> r is Some,
        r is Some ==> r->0@ == parse_block_spec(text@)->0,
{
    let mut v: Vec<char> = Vec::new();
    crate::text::append_str(&mut v, text);
    proof {
        assert(v@ =~= text@);
        assert(v@.skip(0) =~= v@);
    }
    let i1 = match expect_lit(&v, 0, "{\"index\":") {
        None => {
            return None;
        },
        Some(j) => j,
    };
    let (index_u, i2) = match parse_number_exec(&v, i1) {
        None => {
            return None;
        },
        Some(p) => p,
    };
    if index_u > 0xffff_ffffu64 {
        return None;
    }
    let i3 = match expect_lit(&v, i2, ",\"transactions\":[") {
        None => {
            return None;
        },
        Some(j) => j,
    };
    let (txs, i4) = match parse_txs_exec(&v, i3) {
        None => {
            return None;
        },
        Some(p) => p,
    };
    let i5 = match expect_lit(&v, i4, ",\"timestamp\":") {
        None => {
            return None;
        },
        Some(j) => j,
    };
    let (ts, i6) = match parse_number_exec(&v, i5) {
        None => {
            return None;
        },
        Some(p) => p,
    };
    let i7 = match expect_lit(&v, i6, ",\"previous_hash\":\"") {
        None => {
            return None;
        },
        Some(j) => j,
    };
    let (prev, i8) = match parse_string_exec(&v, i7) {
        None => {
            return None;
        },
        Some(p) => p,
    };
    let i9 = match expect_lit(&v, i8, ",\"hash\":\"") {
        None => {
            return None;
        },
        Some(j) => j,
    };
    let (hash, i10) = match parse_string_exec(&v, i9) {
        None => {
            return None;
        },
        Some(p) => p,
    };
    let i11 = match expect_lit(&v, i10, ",\"nonce\":") {
        None => {
            return None;
        },
        Some(j) => j,
    };
    let (nonce_u, i12) = match parse_number_exec(&v, i11) {
        None => {
            return None;
        },
        Some(p) => p,
    };
    if nonce_u > 0xffff_ffffu64 {
        return None;
    }
    let i13 = match expect_lit(&v, i12, "}") {
        None => {
            return None;
        },
        Some(j) => j,
    };
    if i13 != v.len() {
        proof {
            assert(v@.skip(i13 as int).len() != 0);
        }
        return None;
    }
    let b = crate::block::Block {
        index: index_u as u32,
        transactions: txs,
        timestamp: ts,
        previous_hash: prev,
        hash,
        nonce: nonce_u as u32,
    };
    proof {
        assert(v@.skip(i13 as int).len() == 0);
        assert(parse_block_spec(text@) is Some);
        assert(b@ =~= parse_block_spec(text@)->0);
    }
    Some(b)
}

/// Builds the canonical text of a block as a character vector.
pub fn encode_chars(b: &crate::block::Block) -> (out: Vec<char>)
    ensures
        out@ == encode_spec(b@),
{
    let mut out: Vec<char> = Vec::new();
    crate::text::append_str(&mut out, "{\"index\":");
    crate::text::append_dec(&mut out, b.index as u64);
    crate::text::append_str(&mut out, ",\"transactions\":[");
    append_txs_closed(&mut out, &b.transactions);
    crate::text::append_str(&mut out, ",\"timestamp\":");
    crate::text::append_dec(&mut out, b.timestamp);
    crate::text::append_str(&mut out, ",\"previous_hash\":\"");
    append_str_closed(&mut out, b.previous_hash.as_str());
    crate::text::append_str(&mut out, ",\"hash\":\"");
    append_str_closed(&mut out, b.hash.as_str());
    crate::text::append_str(&mut out, ",\"nonce\":");
    crate::text::append_dec(&mut out, b.nonce as u64);
    crate::text::append_str(&mut out, "}");
    proof {
        assert(out@ =~= encode_spec(b@));
    }
    out
}

} // verus!
