//! Utilities: identifier generation and small string helpers.

use vstd::prelude::*;

verus! {

/// Character-wise string equality, usable where the contracts need the
/// exact relation between two `&str` views.
pub fn str_eq(a: &str, b: &str) -> (r: bool)
    ensures
        r == (a@ == b@),
{
    let a_len = a.unicode_len();
    let b_len = b.unicode_len();
    if a_len != b_len {
        return false;
    }
    let mut i: usize = 0;
    while i < a_len
        invariant
            i <= a_len,
            a_len == a@.len(),
            b_len == b@.len(),
            a_len == b_len,
            forall|j: int| 0 <= j < i ==> a@[j] == b@[j],
        decreases a_len - i,
    {
        if a.get_char(i) != b.get_char(i) {
            return false;
        }
        i += 1;
    }
    proof {
        assert(a@ =~= b@);
    }
    true
}

/// The identifier alphabet: digits and lower-case letters, kept to ASCII
/// so that one character is one byte.
fn make_id_alphabet() -> (r: Vec<char>)
    ensures
        1 <= r@.len() <= 255,
        forall|i: int| 0 <= i < r@.len() ==> ((#[trigger] r@[i]) as u32) < 128,
{
    let s = "1234567890abcdefghijklmnopqrstuvwxyz";
    let len = s.unicode_len();
    let mut r: Vec<char> = Vec::new();
    let mut i: usize = 0;
    while i < len
        invariant
            i <= len,
            len == s@.len(),
            r@.len() <= i,
            forall|j: int| 0 <= j < r@.len() ==> ((#[trigger] r@[j]) as u32) < 128,
        decreases len - i,
    {
        let c = s.get_char(i);
        if (c as u32) < 128 {
            r.push(c);
        }
        i += 1;
    }
    if r.len() == 0 {
        r.push('0');
    }
    if r.len() > 255 {
        r.truncate(255);
    }
    r
}

/// Relies on nanoid::format with nanoid::rngs::default: it draws random
/// bytes and emits exactly `size` characters taken from `alphabet`.
/// The alphabet must be non-empty ASCII of at most 255 symbols and `size`
/// positive, else nanoid::format panics or never returns.
#[verifier::external_body]
fn nanoid_format(alphabet: &Vec<char>, size: usize) -> (r: String)
    requires
        1 <= alphabet@.len() <= 255,
        size >= 1,
        forall|i: int| 0 <= i < alphabet@.len() ==> ((#[trigger] alphabet@[i]) as u32) < 128,
    ensures
        r@.len() == size,
{
    nanoid::format(nanoid::rngs::default, alphabet.as_slice(), size)
}

/// A fresh random identifier of `length` characters, drawn from digits
/// and lower-case letters.
pub fn generate_id(length: usize) -> (r: String)
    requires
        length >= 1,
    ensures
        r@.len() == length,
{
    let alphabet = make_id_alphabet();
    nanoid_format(&alphabet, length)
}

/// Lexicographic order on character sequences, by scalar value; on valid
/// text this is the order Rust's `String` ordering gives.
pub open spec fn str_seq_le(a: Seq<char>, b: Seq<char>) -> bool
    decreases a.len(),
{
    if a.len() == 0 {
        true
    } else if b.len() == 0 {
        false
    } else if (a[0] as u32) != (b[0] as u32) {
        (a[0] as u32) < (b[0] as u32)
    } else {
        str_seq_le(a.subrange(1, a.len() as int), b.subrange(1, b.len() as int))
    }
}

/// The order is total: of any two texts, one is less-or-equal the other.
pub proof fn lemma_str_le_total(a: Seq<char>, b: Seq<char>)
    ensures
        str_seq_le(a, b) || str_seq_le(b, a),
    decreases a.len(),
{
    if a.len() > 0 && b.len() > 0 && (a[0] as u32) == (b[0] as u32) {
        lemma_str_le_total(a.subrange(1, a.len() as int), b.subrange(1, b.len() as int));
    }
}

/// The order is transitive.
pub proof fn lemma_str_le_trans(a: Seq<char>, b: Seq<char>, c: Seq<char>)
    requires
        str_seq_le(a, b),
        str_seq_le(b, c),
    ensures
        str_seq_le(a, c),
    decreases a.len(),
{
    if a.len() > 0 {
        if (a[0] as u32) == (b[0] as u32) && (b[0] as u32) == (c[0] as u32) {
            lemma_str_le_trans(
                a.subrange(1, a.len() as int),
                b.subrange(1, b.len() as int),
                c.subrange(1, c.len() as int),
            );
        }
    }
}

/// Character-wise string comparison in the lexicographic order.
pub fn str_le(a: &str, b: &str) -> (r: bool)
    ensures
        r == str_seq_le(a@, b@),
{
    let a_len = a.unicode_len();
    let b_len = b.unicode_len();
    proof {
        assert(a@.subrange(0, a@.len() as int) =~= a@);
        assert(b@.subrange(0, b@.len() as int) =~= b@);
    }
    let mut i: usize = 0;
    loop
        invariant
            i <= a_len && i <= b_len,
            a_len == a@.len(),
            b_len == b@.len(),
            str_seq_le(a@, b@) == str_seq_le(
                a@.subrange(i as int, a@.len() as int),
                b@.subrange(i as int, b@.len() as int),
            ),
        decreases a_len - i,
    {
        let ghost ra = a@.subrange(i as int, a@.len() as int);
        let ghost rb = b@.subrange(i as int, b@.len() as int);
        if i >= a_len {
            proof {
                assert(ra.len() == 0);
            }
            return true;
        }
        if i >= b_len {
            proof {
                assert(rb.len() == 0 && ra.len() > 0);
            }
            return false;
        }
        let ca = a.get_char(i);
        let cb = b.get_char(i);
        proof {
            assert(ra[0] == a@[i as int] && rb[0] == b@[i as int]);
        }
        if (ca as u32) != (cb as u32) {
            return (ca as u32) < (cb as u32);
        }
        proof {
            assert(ra.subrange(1, ra.len() as int) =~= a@.subrange(i + 1, a@.len() as int));
            assert(rb.subrange(1, rb.len() as int) =~= b@.subrange(i + 1, b@.len() as int));
        }
        i += 1;
    }
}

} // verus!
