//! SHA-256 digests of byte strings, rendered as lowercase hexadecimal text.

use vstd::prelude::*;

verus! {

/// The SHA-256 digest of a byte string: its 32 digest bytes.
pub uninterp spec fn sha256_of(data: Seq<u8>) -> Seq<u8>;

/// Relies on `sha2::Sha256::digest`: the digest is a function of the input
/// bytes alone, and SHA-256 produces exactly 32 digest bytes.
#[verifier::external_body]
pub(crate) fn sha256_digest(data: &[u8]) -> (r: Vec<u8>)
    ensures
        r@ == sha256_of(data@),
        r@.len() == 32,
{
    <sha2::Sha256 as sha2::Digest>::digest(data).to_vec()
}

/// A hexadecimal digit character in lower case.
pub open spec fn is_lower_hex_digit(c: char) -> bool {
    (48 <= c as u32 && c as u32 <= 57) || (97 <= c as u32 && c as u32 <= 102)
}

/// The hexadecimal digit character for a value below sixteen.
pub open spec fn hex_digit(n: nat) -> char {
    if n == 0 {
        '0'
    } else if n == 1 {
        '1'
    } else if n == 2 {
        '2'
    } else if n == 3 {
        '3'
    } else if n == 4 {
        '4'
    } else if n == 5 {
        '5'
    } else if n == 6 {
        '6'
    } else if n == 7 {
        '7'
    } else if n == 8 {
        '8'
    } else if n == 9 {
        '9'
    } else if n == 10 {
        'a'
    } else if n == 11 {
        'b'
    } else if n == 12 {
        'c'
    } else if n == 13 {
        'd'
    } else if n == 14 {
        'e'
    } else {
        'f'
    }
}

/// The two lowercase hexadecimal digits of one byte, high digit first.
pub open spec fn hex_of_byte(b: u8) -> Seq<char> {
    seq![hex_digit(b as nat / 16), hex_digit(b as nat % 16)]
}

/// The lowercase hexadecimal rendering of a byte string, two digits per byte.
pub open spec fn hex_of(bytes: Seq<u8>) -> Seq<char>
    decreases bytes.len(),
{
    if bytes.len() == 0 {
        Seq::empty()
    } else {
        hex_of_byte(bytes[0]) + hex_of(bytes.skip(1))
    }
}

/// Hexadecimal rendering distributes over concatenation.
pub proof fn lemma_hex_of_append(a: Seq<u8>, b: Seq<u8>)
    ensures
        hex_of(a + b) == hex_of(a) + hex_of(b),
    decreases a.len(),
{
    if a.len() == 0 {
        assert(a + b =~= b);
        assert(hex_of(a) + hex_of(b) =~= hex_of(b));
    } else {
        assert((a + b).skip(1) =~= a.skip(1) + b);
        lemma_hex_of_append(a.skip(1), b);
        assert(hex_of(a + b) =~= hex_of(a) + hex_of(b));
    }
}

/// A hexadecimal rendering is twice as long as its byte string, and every
/// character of it is a lowercase hexadecimal digit.
pub proof fn lemma_hex_of_shape(bytes: Seq<u8>)
    ensures
        hex_of(bytes).len() == 2 * bytes.len(),
        forall|i: int| 0 <= i < hex_of(bytes).len() ==> is_lower_hex_digit(#[trigger] hex_of(
            bytes,
        )[i]),
    decreases bytes.len(),
{
    if bytes.len() > 0 {
        lemma_hex_of_shape(bytes.skip(1));
        assert(is_lower_hex_digit(hex_of_byte(bytes[0])[0]));
        assert(is_lower_hex_digit(hex_of_byte(bytes[0])[1]));
    }
}

/// The hexadecimal digit character for a value below sixteen, as executable
/// code.
fn hex_digit_exec(n: u8) -> (c: char)
    requires
        n < 16,
    ensures
        c == hex_digit(n as nat),
{
    if n == 0 {
        '0'
    } else if n == 1 {
        '1'
    } else if n == 2 {
        '2'
    } else if n == 3 {
        '3'
    } else if n == 4 {
        '4'
    } else if n == 5 {
        '5'
    } else if n == 6 {
        '6'
    } else if n == 7 {
        '7'
    } else if n == 8 {
        '8'
    } else if n == 9 {
        '9'
    } else if n == 10 {
        'a'
    } else if n == 11 {
        'b'
    } else if n == 12 {
        'c'
    } else if n == 13 {
        'd'
    } else if n == 14 {
        'e'
    } else {
        'f'
    }
}

/// Renders a byte string as lowercase hexadecimal characters.
pub fn to_hex_chars(bytes: &Vec<u8>) -> (out: Vec<char>)
    ensures
        out@ == hex_of(bytes@),
{
    let mut out: Vec<char> = Vec::new();
    let mut j: usize = 0;
    while j < bytes.len()
        invariant
            j <= bytes@.len(),
            out@ == hex_of(bytes@.take(j as int)),
        decreases bytes@.len() - j,
    {
        let b = bytes[j];
        out.push(hex_digit_exec(b / 16));
        out.push(hex_digit_exec(b % 16));
        proof {
            assert(bytes@.take(j + 1) =~= bytes@.take(j as int) + seq![b]);
            lemma_hex_of_append(bytes@.take(j as int), seq![b]);
            assert(seq![b].skip(1) =~= Seq::<u8>::empty());
            assert(hex_of(seq![b]) == hex_of_byte(seq![b][0]) + hex_of(seq![b].skip(1)));
            assert(hex_of(seq![b]) =~= hex_of_byte(b));
            assert(out@.subrange(0, out@.len() - 2) + hex_of_byte(b) =~= out@);
        }
        j = j + 1;
    }
    proof {
        assert(bytes@.take(bytes@.len() as int) =~= bytes@);
    }
    out
}

/// The SHA-256 digest of a byte string, rendered as 64 lowercase hexadecimal
/// characters.
pub open spec fn sha256_hex_of(data: Seq<u8>) -> Seq<char> {
    hex_of(sha256_of(data))
}

/// Computes the SHA-256 digest of `data` and renders it in lowercase
/// hexadecimal.
pub fn sha256_hex(data: &[u8]) -> (out: String)
    ensures
        out@ == sha256_hex_of(data@),
        out@.len() == 64,
        forall|i: int| 0 <= i < out@.len() ==> is_lower_hex_digit(#[trigger] out@[i]),
{
    let digest = sha256_digest(data);
    let chars = to_hex_chars(&digest);
    proof {
        lemma_hex_of_shape(sha256_of(data@));
    }
    crate::text::string_of(&chars)
}

} // verus!
