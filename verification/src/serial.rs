//! The canonical text encoding.
//!
//! Every value is rendered as ASCII text from which it can be decoded
//! again: numbers as decimal digits, strings as a decimal character count,
//! a colon, and the characters themselves.  Composite types concatenate
//! the encodings of their parts, which are self-delimiting, so a decoder
//! needs no lookahead.  Each decoder is proved to invert the encoder.

use vstd::prelude::*;

verus! {

pub open spec fn is_digit(c: char) -> bool {
    48 <= (c as u32) && (c as u32) <= 57
}

pub open spec fn digit_char(d: int) -> char {
    if d == 0 {
        '0'
    } else if d == 1 {
        '1'
    } else if d == 2 {
        '2'
    } else if d == 3 {
        '3'
    } else if d == 4 {
        '4'
    } else if d == 5 {
        '5'
    } else if d == 6 {
        '6'
    } else if d == 7 {
        '7'
    } else if d == 8 {
        '8'
    } else {
        '9'
    }
}

pub open spec fn digit_val(c: char) -> nat {
    (c as u32 - 48) as nat
}

/// Decimal rendering of a natural number, most significant digit first.
pub open spec fn enc_nat(n: nat) -> Seq<char>
    decreases n,
{
    if n < 10 {
        seq![digit_char(n as int)]
    } else {
        enc_nat(n / 10) + seq![digit_char((n % 10) as int)]
    }
}

/// Greedy decimal parse: consume leading digits, accumulating their value.
pub open spec fn dec_nat_rec(s: Seq<char>, acc: nat) -> (nat, Seq<char>)
    decreases s.len(),
{
    if s.len() > 0 && is_digit(s[0]) {
        dec_nat_rec(s.subrange(1, s.len() as int), acc * 10 + digit_val(s[0]))
    } else {
        (acc, s)
    }
}

/// A number is present only when the text starts with a digit.
pub open spec fn dec_nat(s: Seq<char>) -> Option<(nat, Seq<char>)> {
    if s.len() > 0 && is_digit(s[0]) {
        Some(dec_nat_rec(s, 0))
    } else {
        None
    }
}

pub open spec fn dec_u64(s: Seq<char>) -> Option<(u64, Seq<char>)> {
    match dec_nat(s) {
        Some((n, r)) => if n <= u64::MAX { Some((n as u64, r)) } else { None },
        None => None,
    }
}

pub open spec fn dec_u32(s: Seq<char>) -> Option<(u32, Seq<char>)> {
    match dec_nat(s) {
        Some((n, r)) => if n <= u32::MAX { Some((n as u32, r)) } else { None },
        None => None,
    }
}

/// A string is rendered as its character count, a colon, and its text.
pub open spec fn enc_str(s: Seq<char>) -> Seq<char> {
    enc_nat(s.len()) + seq![':'] + s
}

pub open spec fn dec_str(s: Seq<char>) -> Option<(Seq<char>, Seq<char>)> {
    match dec_nat(s) {
        Some((n, r)) => if 1 <= r.len() && r[0] == ':' && n + 1 <= r.len() {
            Some((r.subrange(1, n as int + 1), r.subrange(n as int + 1, r.len() as int)))
        } else {
            None
        },
        None => None,
    }
}

pub open spec fn pow10(k: nat) -> nat
    decreases k,
{
    if k == 0 {
        1
    } else {
        10 * pow10((k - 1) as nat)
    }
}

pub proof fn lemma_enc_nat_digits(n: nat)
    ensures
        enc_nat(n).len() >= 1,
        forall|i: int| 0 <= i < enc_nat(n).len() ==> is_digit(#[trigger] enc_nat(n)[i]),
    decreases n,
{
    if n < 10 {
        assert(is_digit(digit_char(n as int)));
    } else {
        lemma_enc_nat_digits(n / 10);
        assert(is_digit(digit_char((n % 10) as int)));
        assert forall|i: int| 0 <= i < enc_nat(n).len() implies is_digit(#[trigger] enc_nat(n)[i]) by {
            if i < enc_nat(n / 10).len() {
                assert(enc_nat(n)[i] == enc_nat(n / 10)[i]);
            } else {
                assert(enc_nat(n)[i] == digit_char((n % 10) as int));
            }
        }
    }
}

/// The value parsed can only grow as more digits are consumed.
pub proof fn lemma_dec_rec_ge(s: Seq<char>, acc: nat)
    ensures
        dec_nat_rec(s, acc).0 >= acc,
    decreases s.len(),
{
    if s.len() > 0 && is_digit(s[0]) {
        lemma_dec_rec_ge(s.subrange(1, s.len() as int), acc * 10 + digit_val(s[0]));
    }
}

/// Parsing consumes characters, never invents them.
pub proof fn lemma_dec_rec_rest(s: Seq<char>, acc: nat)
    ensures
        dec_nat_rec(s, acc).1.len() <= s.len(),
    decreases s.len(),
{
    if s.len() > 0 && is_digit(s[0]) {
        lemma_dec_rec_rest(s.subrange(1, s.len() as int), acc * 10 + digit_val(s[0]));
    }
}

proof fn lemma_dec_rec_enc(n: nat, t: Seq<char>, acc: nat)
    ensures
        dec_nat_rec(enc_nat(n) + t, acc) == dec_nat_rec(t, acc * pow10(enc_nat(n).len()) + n),
    decreases n,
{
    lemma_enc_nat_digits(n);
    if n < 10 {
        let e = enc_nat(n) + t;
        assert(e[0] == digit_char(n as int));
        assert(is_digit(e[0]));
        assert(digit_val(digit_char(n as int)) == n);
        assert(e.subrange(1, e.len() as int) =~= t);
        assert(dec_nat_rec(e, acc) == dec_nat_rec(t, acc * 10 + n));
        assert(pow10(0) == 1);
        assert(pow10(1) == 10);
        assert(acc * pow10(enc_nat(n).len()) + n == acc * 10 + n);
    } else {
        let d = digit_char((n % 10) as int);
        let head = enc_nat(n / 10);
        assert(enc_nat(n) + t =~= head + (seq![d] + t));
        lemma_dec_rec_enc(n / 10, seq![d] + t, acc);
        let l1 = head.len();
        let acc1 = acc * pow10(l1) + n / 10;
        assert(dec_nat_rec(enc_nat(n) + t, acc) == dec_nat_rec(seq![d] + t, acc1));
        let e2 = seq![d] + t;
        assert(e2[0] == d && is_digit(d));
        assert(e2.subrange(1, e2.len() as int) =~= t);
        assert(digit_val(d) == n % 10);
        assert(dec_nat_rec(e2, acc1) == dec_nat_rec(t, acc1 * 10 + n % 10));
        assert(enc_nat(n).len() == l1 + 1);
        assert(pow10(l1 + 1) == 10 * pow10(l1));
        assert(acc1 * 10 + n % 10 == acc * pow10(l1 + 1) + n) by (nonlinear_arith)
            requires
                acc1 == acc * pow10(l1) + n / 10,
                pow10(l1 + 1) == 10 * pow10(l1),
                n >= 10,
        ;
    }
}

/// Decoding inverts encoding for numbers, whatever non-digit text follows.
pub proof fn lemma_dec_enc_nat(n: nat, t: Seq<char>)
    requires
        t.len() == 0 || !is_digit(t[0]),
    ensures
        dec_nat(enc_nat(n) + t) == Some((n, t)),
{
    lemma_enc_nat_digits(n);
    let e = enc_nat(n) + t;
    assert(e[0] == enc_nat(n)[0]);
    lemma_dec_rec_enc(n, t, 0);
    assert(0 * pow10(enc_nat(n).len()) + n == n);
    assert(dec_nat_rec(t, n) == (n, t));
}

/// Decoding inverts encoding for strings, whatever text follows.
pub proof fn lemma_dec_enc_str(x: Seq<char>, t: Seq<char>)
    ensures
        dec_str(enc_str(x) + t) == Some((x, t)),
{
    let tail = seq![':'] + x + t;
    assert(enc_str(x) + t =~= enc_nat(x.len()) + tail);
    assert(!is_digit(tail[0]));
    lemma_dec_enc_nat(x.len(), tail);
    assert(dec_nat(enc_str(x) + t) == Some((x.len(), tail)));
    assert(tail[0] == ':');
    assert(tail.len() == 1 + x.len() + t.len());
    assert(tail.subrange(1, x.len() as int + 1) =~= x);
    assert(tail.subrange(x.len() as int + 1, tail.len() as int) =~= t);
}

fn digit_str_of(d: u64) -> (r: &'static str)
    requires
        d < 10,
    ensures
        r@ =~= seq![digit_char(d as int)],
{
    proof {
        reveal_strlit("0");
        reveal_strlit("1");
        reveal_strlit("2");
        reveal_strlit("3");
        reveal_strlit("4");
        reveal_strlit("5");
        reveal_strlit("6");
        reveal_strlit("7");
        reveal_strlit("8");
        reveal_strlit("9");
    }
    match d {
        0 => "0",
        1 => "1",
        2 => "2",
        3 => "3",
        4 => "4",
        5 => "5",
        6 => "6",
        7 => "7",
        8 => "8",
        _ => "9",
    }
}

/// Append the decimal rendering of `n` to `out`.
pub fn encode_u64(out: &mut String, n: u64)
    ensures
        final(out)@ == old(out)@ + enc_nat(n as nat),
    decreases n,
{
    if n < 10 {
        out.append(digit_str_of(n));
    } else {
        encode_u64(out, n / 10);
        out.append(digit_str_of(n % 10));
        proof {
            assert(old(out)@ + enc_nat((n / 10) as nat) + seq![digit_char((n % 10) as int)]
                =~= old(out)@ + enc_nat(n as nat));
        }
    }
}

/// Parse a number at character position `pos`; `None` exactly when no
/// number starts there or its value does not fit in a `u64`.
pub fn decode_u64(s: &str, pos: usize) -> (r: Option<(u64, usize)>)
    requires
        pos <= s@.len(),
    ensures
        match r {
            Some(vp) => pos <= vp.1 <= s@.len() && dec_u64(s@.subrange(pos as int, s@.len() as int))
                == Some((vp.0, s@.subrange(vp.1 as int, s@.len() as int))),
            None => dec_u64(s@.subrange(pos as int, s@.len() as int)) is None,
        },
{
    let ghost whole = s@.subrange(pos as int, s@.len() as int);
    let len = s.unicode_len();
    if pos >= len {
        return None;
    }
    let c0 = s.get_char(pos);
    let c0u = c0 as u32;
    if c0u < 48 || c0u > 57 {
        assert(whole[0] == s@[pos as int]);
        return None;
    }
    let mut i: usize = pos;
    let mut acc: u64 = 0;
    loop
        invariant
            pos <= i <= len,
            len == s@.len(),
            whole == s@.subrange(pos as int, s@.len() as int),
            whole.len() > 0 && is_digit(whole[0]),
            dec_nat_rec(whole, 0) == dec_nat_rec(s@.subrange(i as int, s@.len() as int), acc as nat),
        decreases len - i,
    {
        let ghost cur = s@.subrange(i as int, s@.len() as int);
        if i >= len {
            proof {
                assert(cur.len() == 0);
                assert(dec_nat_rec(cur, acc as nat) == (acc as nat, cur));
                assert(dec_nat(whole) == Some((acc as nat, cur)));
            }
            return Some((acc, i));
        }
        let c = s.get_char(i);
        let cu = c as u32;
        if cu < 48 || cu > 57 {
            proof {
                assert(cur[0] == s@[i as int]);
                assert(!is_digit(cur[0]));
                assert(dec_nat_rec(cur, acc as nat) == (acc as nat, cur));
                assert(dec_nat(whole) == Some((acc as nat, cur)));
            }
            return Some((acc, i));
        }
        let d = (cu - 48) as u64;
        if acc > (u64::MAX - d) / 10 {
            proof {
                assert(cur[0] == s@[i as int] && is_digit(cur[0]));
                let next = cur.subrange(1, cur.len() as int);
                assert(next =~= s@.subrange(i + 1, s@.len() as int));
                assert(digit_val(cur[0]) == d as nat);
                assert(dec_nat_rec(cur, acc as nat) == dec_nat_rec(next, acc as nat * 10 + d as nat));
                lemma_dec_rec_ge(next, acc as nat * 10 + d as nat);
                assert(acc as nat * 10 + d as nat > u64::MAX);
                assert(dec_nat_rec(whole, 0).0 > u64::MAX);
            }
            return None;
        }
        proof {
            assert(acc * 10 + d <= u64::MAX);
            assert(cur[0] == s@[i as int] && is_digit(cur[0]));
            let next = cur.subrange(1, cur.len() as int);
            assert(next =~= s@.subrange(i + 1, s@.len() as int));
            assert(digit_val(cur[0]) == d as nat);
            assert(dec_nat_rec(cur, acc as nat) == dec_nat_rec(next, acc as nat * 10 + d as nat));
        }
        acc = acc * 10 + d;
        i = i + 1;
    }
}

/// Parse a number that must fit in a `u32`.
pub fn decode_u32(s: &str, pos: usize) -> (r: Option<(u32, usize)>)
    requires
        pos <= s@.len(),
    ensures
        match r {
            Some(vp) => pos <= vp.1 <= s@.len() && dec_u32(s@.subrange(pos as int, s@.len() as int))
                == Some((vp.0, s@.subrange(vp.1 as int, s@.len() as int))),
            None => dec_u32(s@.subrange(pos as int, s@.len() as int)) is None,
        },
{
    match decode_u64(s, pos) {
        Some((v, p2)) => {
            if v <= u32::MAX as u64 {
                Some((v as u32, p2))
            } else {
                None
            }
        },
        None => None,
    }
}

/// Append the encoding of the string `x` to `out`.
pub fn encode_str(out: &mut String, x: &str)
    ensures
        final(out)@ == old(out)@ + enc_str(x@),
{
    let len = x.unicode_len();
    encode_u64(out, len as u64);
    out.append(":");
    out.append(x);
    proof {
        reveal_strlit(":");
        assert(":"@ =~= seq![':']);
        assert(old(out)@ + enc_nat(x@.len()) + ":"@ + x@ =~= old(out)@ + enc_str(x@));
    }
}

/// Parse a string at character position `pos`; `None` exactly when no
/// well-formed string encoding starts there.
pub fn decode_str(s: &str, pos: usize) -> (r: Option<(String, usize)>)
    requires
        pos <= s@.len(),
    ensures
        match r {
            Some(vp) => pos <= vp.1 <= s@.len() && dec_str(s@.subrange(pos as int, s@.len() as int))
                == Some((vp.0@, s@.subrange(vp.1 as int, s@.len() as int))),
            None => dec_str(s@.subrange(pos as int, s@.len() as int)) is None,
        },
{
    let ghost whole = s@.subrange(pos as int, s@.len() as int);
    let len = s.unicode_len();
    match decode_u64(s, pos) {
        Some((n, p2)) => {
            let ghost rest = s@.subrange(p2 as int, s@.len() as int);
            proof {
                assert(dec_nat(whole) == Some((n as nat, rest)));
            }
            if p2 >= len {
                proof {
                    assert(rest.len() == 0);
                }
                return None;
            }
            let c = s.get_char(p2);
            if c != ':' {
                proof {
                    assert(rest[0] == s@[p2 as int]);
                }
                return None;
            }
            proof {
                assert(rest[0] == s@[p2 as int] && rest[0] == ':');
            }
            if ((len - p2 - 1) as u64) < n {
                proof {
                    assert(rest.len() == len - p2);
                    assert(n as nat + 1 > rest.len());
                }
                return None;
            }
            let start = p2 + 1;
            let end = start + (n as usize);
            let sub = s.substring_char(start, end);
            let owned = String::from_str(sub);
            proof {
                assert(rest.subrange(1, n as int + 1) =~= s@.subrange(start as int, end as int));
                assert(rest.subrange(n as int + 1, rest.len() as int) =~= s@.subrange(
                    end as int,
                    s@.len() as int,
                ));
            }
            Some((owned, end))
        },
        None => {
            proof {
                if dec_nat(whole) is Some {
                    let n = dec_nat(whole).unwrap().0;
                    let rest = dec_nat(whole).unwrap().1;
                    assert(n > u64::MAX);
                    lemma_dec_rec_rest(whole, 0);
                    assert(rest.len() <= whole.len());
                    assert(n + 1 > rest.len());
                }
            }
            None
        },
    }
}

/// A number standing alone in a composite encoding: digits closed by a
/// colon, so that two adjacent numbers cannot merge.
pub open spec fn enc_num(n: nat) -> Seq<char> {
    enc_nat(n) + seq![':']
}

pub open spec fn dec_num(s: Seq<char>) -> Option<(nat, Seq<char>)> {
    match dec_nat(s) {
        Some((n, r)) => if 1 <= r.len() && r[0] == ':' {
            Some((n, r.subrange(1, r.len() as int)))
        } else {
            None
        },
        None => None,
    }
}

pub open spec fn dec_num_u64(s: Seq<char>) -> Option<(u64, Seq<char>)> {
    match dec_num(s) {
        Some((n, r)) => if n <= u64::MAX { Some((n as u64, r)) } else { None },
        None => None,
    }
}

pub open spec fn dec_num_u32(s: Seq<char>) -> Option<(u32, Seq<char>)> {
    match dec_num(s) {
        Some((n, r)) => if n <= u32::MAX { Some((n as u32, r)) } else { None },
        None => None,
    }
}

/// Decoding inverts encoding for delimited numbers.
pub proof fn lemma_dec_enc_num(n: nat, t: Seq<char>)
    ensures
        dec_num(enc_num(n) + t) == Some((n, t)),
{
    let tail = seq![':'] + t;
    assert(enc_num(n) + t =~= enc_nat(n) + tail);
    assert(!is_digit(tail[0]));
    lemma_dec_enc_nat(n, tail);
    assert(tail.subrange(1, tail.len() as int) =~= t);
}

/// Append the delimited rendering of `n` to `out`.
pub fn encode_num(out: &mut String, n: u64)
    ensures
        final(out)@ == old(out)@ + enc_num(n as nat),
{
    encode_u64(out, n);
    out.append(":");
    proof {
        reveal_strlit(":");
        assert(":"@ =~= seq![':']);
        assert(old(out)@ + enc_nat(n as nat) + ":"@ =~= old(out)@ + enc_num(n as nat));
    }
}

/// Parse a delimited number; `None` exactly when none starts at `pos` or
/// its value does not fit in a `u64`.
pub fn decode_num_u64(s: &str, pos: usize) -> (r: Option<(u64, usize)>)
    requires
        pos <= s@.len(),
    ensures
        match r {
            Some(vp) => pos <= vp.1 <= s@.len() && dec_num_u64(s@.subrange(pos as int, s@.len() as int))
                == Some((vp.0, s@.subrange(vp.1 as int, s@.len() as int))),
            None => dec_num_u64(s@.subrange(pos as int, s@.len() as int)) is None,
        },
{
    let ghost whole = s@.subrange(pos as int, s@.len() as int);
    let len = s.unicode_len();
    match decode_u64(s, pos) {
        Some((v, p2)) => {
            let ghost rest = s@.subrange(p2 as int, s@.len() as int);
            if p2 >= len {
                proof {
                    assert(rest.len() == 0);
                }
                return None;
            }
            let c = s.get_char(p2);
            if c != ':' {
                proof {
                    assert(rest[0] == s@[p2 as int]);
                }
                return None;
            }
            proof {
                assert(rest[0] == s@[p2 as int]);
                assert(rest.subrange(1, rest.len() as int) =~= s@.subrange(
                    p2 + 1,
                    s@.len() as int,
                ));
            }
            Some((v, p2 + 1))
        },
        None => {
            proof {
                if dec_nat(whole) is Some {
                    assert(dec_nat(whole).unwrap().0 > u64::MAX);
                }
            }
            None
        },
    }
}

/// Parse a delimited number that must fit in a `u32`.
pub fn decode_num_u32(s: &str, pos: usize) -> (r: Option<(u32, usize)>)
    requires
        pos <= s@.len(),
    ensures
        match r {
            Some(vp) => pos <= vp.1 <= s@.len() && dec_num_u32(s@.subrange(pos as int, s@.len() as int))
                == Some((vp.0, s@.subrange(vp.1 as int, s@.len() as int))),
            None => dec_num_u32(s@.subrange(pos as int, s@.len() as int)) is None,
        },
{
    match decode_num_u64(s, pos) {
        Some((v, p2)) => {
            if v <= u32::MAX as u64 {
                Some((v as u32, p2))
            } else {
                None
            }
        },
        None => None,
    }
}

/// A boolean is one tag character.
pub open spec fn enc_bool(b: bool) -> Seq<char> {
    if b {
        seq!['T']
    } else {
        seq!['F']
    }
}

pub open spec fn dec_bool(s: Seq<char>) -> Option<(bool, Seq<char>)> {
    if s.len() >= 1 && s[0] == 'T' {
        Some((true, s.subrange(1, s.len() as int)))
    } else if s.len() >= 1 && s[0] == 'F' {
        Some((false, s.subrange(1, s.len() as int)))
    } else {
        None
    }
}

/// Decoding inverts encoding for booleans.
pub proof fn lemma_dec_enc_bool(b: bool, t: Seq<char>)
    ensures
        dec_bool(enc_bool(b) + t) == Some((b, t)),
{
    assert((enc_bool(b) + t).subrange(1, (enc_bool(b) + t).len() as int) =~= t);
}

pub fn encode_bool(out: &mut String, b: bool)
    ensures
        final(out)@ == old(out)@ + enc_bool(b),
{
    proof {
        reveal_strlit("T");
        reveal_strlit("F");
        assert("T"@ =~= seq!['T']);
        assert("F"@ =~= seq!['F']);
    }
    if b {
        out.append("T");
    } else {
        out.append("F");
    }
}

pub fn decode_bool(s: &str, pos: usize) -> (r: Option<(bool, usize)>)
    requires
        pos <= s@.len(),
    ensures
        match r {
            Some(vp) => pos <= vp.1 <= s@.len() && dec_bool(s@.subrange(pos as int, s@.len() as int))
                == Some((vp.0, s@.subrange(vp.1 as int, s@.len() as int))),
            None => dec_bool(s@.subrange(pos as int, s@.len() as int)) is None,
        },
{
    let ghost whole = s@.subrange(pos as int, s@.len() as int);
    let len = s.unicode_len();
    if pos >= len {
        return None;
    }
    let c = s.get_char(pos);
    proof {
        assert(whole[0] == s@[pos as int]);
        assert(whole.subrange(1, whole.len() as int) =~= s@.subrange(pos + 1, s@.len() as int));
    }
    if c == 'T' {
        Some((true, pos + 1))
    } else if c == 'F' {
        Some((false, pos + 1))
    } else {
        None
    }
}

/// A signed number: a minus sign where negative, then the delimited
/// magnitude.
pub open spec fn enc_i32(v: i32) -> Seq<char> {
    if v >= 0 {
        enc_num(v as nat)
    } else {
        seq!['-'] + enc_num((-(v as int)) as nat)
    }
}

pub open spec fn dec_i32(s: Seq<char>) -> Option<(i32, Seq<char>)> {
    if s.len() >= 1 && s[0] == '-' {
        match dec_num(s.subrange(1, s.len() as int)) {
            Some((n, r)) => if 1 <= n <= 0x8000_0000 {
                Some(((-(n as int)) as i32, r))
            } else {
                None
            },
            None => None,
        }
    } else {
        match dec_num(s) {
            Some((n, r)) => if n <= i32::MAX as nat {
                Some((n as i32, r))
            } else {
                None
            },
            None => None,
        }
    }
}

/// Decoding inverts encoding for signed numbers.
pub proof fn lemma_dec_enc_i32(v: i32, t: Seq<char>)
    ensures
        dec_i32(enc_i32(v) + t) == Some((v, t)),
{
    if v >= 0 {
        lemma_dec_enc_num(v as nat, t);
        lemma_enc_nat_digits(v as nat);
        assert((enc_i32(v) + t)[0] == enc_nat(v as nat)[0]);
    } else {
        let m = (-(v as int)) as nat;
        let e = enc_i32(v) + t;
        assert(e[0] == '-');
        assert(e.subrange(1, e.len() as int) =~= enc_num(m) + t);
        lemma_dec_enc_num(m, t);
    }
}

pub fn encode_i32(out: &mut String, v: i32)
    ensures
        final(out)@ == old(out)@ + enc_i32(v),
{
    proof {
        reveal_strlit("-");
        assert("-"@ =~= seq!['-']);
    }
    if v >= 0 {
        encode_num(out, v as u64);
    } else {
        out.append("-");
        let m: u64 = (-(v as i64)) as u64;
        encode_num(out, m);
        proof {
            assert(old(out)@ + seq!['-'] + enc_num(m as nat) =~= old(out)@ + enc_i32(v));
        }
    }
}

pub fn decode_i32(s: &str, pos: usize) -> (r: Option<(i32, usize)>)
    requires
        pos <= s@.len(),
    ensures
        match r {
            Some(vp) => pos <= vp.1 <= s@.len() && dec_i32(s@.subrange(pos as int, s@.len() as int))
                == Some((vp.0, s@.subrange(vp.1 as int, s@.len() as int))),
            None => dec_i32(s@.subrange(pos as int, s@.len() as int)) is None,
        },
{
    let ghost whole = s@.subrange(pos as int, s@.len() as int);
    let len = s.unicode_len();
    if pos >= len {
        proof {
            assert(whole.len() == 0);
        }
        return None;
    }
    let c = s.get_char(pos);
    proof {
        assert(whole[0] == s@[pos as int]);
    }
    if c == '-' {
        proof {
            assert(whole.subrange(1, whole.len() as int) =~= s@.subrange(pos + 1, s@.len() as int));
        }
        match decode_num_u64(s, pos + 1) {
            Some((n, p2)) => {
                if 1 <= n && n <= 0x8000_0000u64 {
                    let v: i32 = (-(n as i64)) as i32;
                    Some((v, p2))
                } else {
                    None
                }
            },
            None => None,
        }
    } else {
        match decode_num_u64(s, pos) {
            Some((n, p2)) => {
                if n <= i32::MAX as u64 {
                    Some((n as i32, p2))
                } else {
                    None
                }
            },
            None => None,
        }
    }
}

/// A list of strings: the delimited count, then each string's encoding.
pub open spec fn enc_str_items(v: Seq<Seq<char>>, n: int) -> Seq<char>
    decreases n,
{
    if n <= 0 {
        Seq::empty()
    } else {
        enc_str_items(v, n - 1) + enc_str(v[n - 1])
    }
}

pub open spec fn enc_str_list(v: Seq<Seq<char>>) -> Seq<char> {
    enc_num(v.len()) + enc_str_items(v, v.len() as int)
}

pub open spec fn dec_str_items(s: Seq<char>, k: nat) -> Option<(Seq<Seq<char>>, Seq<char>)>
    decreases k,
{
    if k == 0 {
        Some((Seq::empty(), s))
    } else {
        match dec_str(s) {
            Some((x, r)) => match dec_str_items(r, (k - 1) as nat) {
                Some((xs, r2)) => Some((seq![x] + xs, r2)),
                None => None,
            },
            None => None,
        }
    }
}

pub open spec fn dec_str_list(s: Seq<char>) -> Option<(Seq<Seq<char>>, Seq<char>)> {
    match dec_num(s) {
        Some((n, r)) => dec_str_items(r, n),
        None => None,
    }
}

proof fn lemma_dec_enc_str_items(v: Seq<Seq<char>>, n: int, t: Seq<char>)
    requires
        0 <= n <= v.len(),
    ensures
        dec_str_items(enc_str_items(v, n) + t, n as nat) == Some((v.subrange(0, n), t)),
    decreases n,
{
    if n == 0 {
        assert(enc_str_items(v, 0) + t =~= t);
        assert(v.subrange(0, 0) =~= Seq::<Seq<char>>::empty());
    } else {
        assert(enc_str_items(v, n) =~= enc_str(v[0]) + enc_str_items(v.subrange(1, v.len() as int), n - 1)) by {
            lemma_enc_str_items_head(v, n);
        }
        let v1 = v.subrange(1, v.len() as int);
        assert(enc_str_items(v, n) + t =~= enc_str(v[0]) + (enc_str_items(v1, n - 1) + t));
        lemma_dec_enc_str(v[0], enc_str_items(v1, n - 1) + t);
        lemma_dec_enc_str_items(v1, n - 1, t);
        assert(seq![v[0]] + v1.subrange(0, n - 1) =~= v.subrange(0, n));
    }
}

/// The items encoding can also be read head-first.
proof fn lemma_enc_str_items_head(v: Seq<Seq<char>>, n: int)
    requires
        1 <= n <= v.len(),
    ensures
        enc_str_items(v, n) =~= enc_str(v[0]) + enc_str_items(v.subrange(1, v.len() as int), n - 1),
    decreases n,
{
    let v1 = v.subrange(1, v.len() as int);
    if n == 1 {
        assert(enc_str_items(v, 0) == Seq::<char>::empty());
        assert(enc_str_items(v, 1) == enc_str_items(v, 0) + enc_str(v[0]));
        assert(enc_str_items(v, 1) =~= enc_str(v[0]));
        assert(enc_str_items(v1, 0) =~= Seq::<char>::empty());
    } else {
        lemma_enc_str_items_head(v, n - 1);
        assert(v1[n - 2] == v[n - 1]);
        assert(enc_str_items(v, n) == enc_str_items(v, n - 1) + enc_str(v[n - 1]));
    }
}

/// Decoding inverts encoding for string lists.
pub proof fn lemma_dec_enc_str_list(v: Seq<Seq<char>>, t: Seq<char>)
    ensures
        dec_str_list(enc_str_list(v) + t) == Some((v, t)),
{
    let items = enc_str_items(v, v.len() as int);
    assert(enc_str_list(v) + t =~= enc_num(v.len()) + (items + t));
    lemma_dec_enc_num(v.len(), items + t);
    lemma_dec_enc_str_items(v, v.len() as int, t);
    assert(v.subrange(0, v.len() as int) =~= v);
}

/// Append the encoding of a string list to `out`.
pub fn encode_str_list(out: &mut String, v: &Vec<String>)
    ensures
        final(out)@ == old(out)@ + enc_str_list(v.deep_view()),
{
    let n = v.len();
    encode_num(out, n as u64);
    let mut i: usize = 0;
    while i < n
        invariant
            i <= n,
            n == v@.len(),
            out@ == old(out)@ + enc_num(v.deep_view().len()) + enc_str_items(v.deep_view(), i as int),
        decreases n - i,
    {
        encode_str(out, v[i].as_str());
        proof {
            assert(v.deep_view()[i as int] == v@[i as int]@);
        }
        i += 1;
    }
    proof {
        assert(out@ =~= old(out)@ + enc_str_list(v.deep_view()));
    }
}

/// Parse a string list; `None` exactly when no well-formed list encoding
/// starts at `pos`.
pub fn decode_str_list(s: &str, pos: usize) -> (r: Option<(Vec<String>, usize)>)
    requires
        pos <= s@.len(),
    ensures
        match r {
            Some(vp) => pos <= vp.1 <= s@.len() && dec_str_list(s@.subrange(pos as int, s@.len() as int))
                == Some((vp.0.deep_view(), s@.subrange(vp.1 as int, s@.len() as int))),
            None => dec_str_list(s@.subrange(pos as int, s@.len() as int)) is None,
        },
{
    let ghost whole = s@.subrange(pos as int, s@.len() as int);
    let len = s.unicode_len();
    match decode_num_u64(s, pos) {
        Some((count, p0)) => {
            let ghost after_count = s@.subrange(p0 as int, s@.len() as int);
            if count > (len as u64) {
                proof {
                    lemma_dec_items_needs_text(after_count, count as nat);
                }
                return None;
            }
            let count_us = count as usize;
            let mut acc: Vec<String> = Vec::new();
            let mut p: usize = p0;
            let mut k: usize = 0;
            while k < count_us
                invariant
                    k <= count_us,
                    pos <= p0 <= s@.len(),
                    pos <= p <= s@.len(),
                    len == s@.len(),
                    whole == s@.subrange(pos as int, s@.len() as int),
                    after_count == s@.subrange(p0 as int, s@.len() as int),
                    dec_num(whole) == Some((count_us as nat, after_count)),
                    acc@.len() == k,
                    dec_str_items(after_count, count_us as nat) == (match dec_str_items(
                        s@.subrange(p as int, s@.len() as int),
                        (count_us - k) as nat,
                    ) {
                        Some(p2) => Some((acc.deep_view() + p2.0, p2.1)),
                        None => None,
                    }),
                decreases count_us - k,
            {
                let ghost cur = s@.subrange(p as int, s@.len() as int);
                match decode_str(s, p) {
                    Some((x, p2)) => {
                        proof {
                            assert(dec_str(cur) == Some((x@, s@.subrange(p2 as int, s@.len() as int))));
                        }
                        let ghost old_acc = acc.deep_view();
                        acc.push(x);
                        proof {
                            assert(acc.deep_view() =~= old_acc + seq![acc@[k as int]@]);
                            assert forall|q: (Seq<Seq<char>>, Seq<char>)|
                                dec_str_items(s@.subrange(p2 as int, s@.len() as int), (count_us - k - 1) as nat) == Some(q)
                                implies (old_acc + (seq![acc@[k as int]@] + q.0)) =~= (acc.deep_view() + q.0) by {
                            }
                        }
                        p = p2;
                        k += 1;
                    },
                    None => {
                        return None;
                    },
                }
            }
            proof {
                let cur = s@.subrange(p as int, s@.len() as int);
                assert(dec_str_items(cur, 0) == Some((Seq::<Seq<char>>::empty(), cur)));
                assert(acc.deep_view() + Seq::<Seq<char>>::empty() =~= acc.deep_view());
            }
            Some((acc, p))
        },
        None => {
            proof {
                if dec_num(whole) is Some {
                    let n = dec_num(whole).unwrap().0;
                    let r = dec_num(whole).unwrap().1;
                    assert(dec_num_u64(whole) is None);
                    assert(n > u64::MAX);
                    lemma_dec_rec_rest(whole, 0);
                    assert(r.len() <= whole.len());
                    lemma_dec_items_needs_text(r, n);
                }
            }
            None
        },
    }
}

/// More items than characters cannot be decoded: each item takes at
/// least one character.
proof fn lemma_dec_items_needs_text(s: Seq<char>, k: nat)
    requires
        k > s.len(),
    ensures
        dec_str_items(s, k) is None,
    decreases k,
{
    if dec_str(s) is Some {
        let x = dec_str(s).unwrap().0;
        let r = dec_str(s).unwrap().1;
        lemma_dec_str_shrinks(s);
        lemma_dec_items_needs_text(r, (k - 1) as nat);
    }
}

/// A successful string parse always consumes at least one character.
proof fn lemma_dec_str_shrinks(s: Seq<char>)
    requires
        dec_str(s) is Some,
    ensures
        dec_str(s).unwrap().1.len() < s.len(),
{
    lemma_dec_rec_rest(s, 0);
}

} // verus!
