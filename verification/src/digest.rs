//! Password fingerprints: the uppercase hexadecimal SHA-1 digest of a password,
//! computed once at ingestion and treated as immutable thereafter.

use vstd::prelude::*;
use vstd::string::*;

verus! {

/// The SHA-1 digest (20 bytes) of a string. The algorithm itself is supplied
/// by an outside crate; only the name is used in contracts.
pub uninterp spec fn sha1_of(s: Seq<char>) -> Seq<u8>;

/// Relies on `sha1_smol::Sha1`: `Sha1::from(data).digest().bytes()` returns the
/// 20-byte SHA-1 digest of `data`, a function of the input bytes alone.
#[verifier::external_body]
fn sha1_digest_bytes(pass: &str) -> (r: Vec<u8>)
    ensures
        r@ == sha1_of(pass@),
        r@.len() == 20,
{
    sha1_smol::Sha1::from(pass).digest().bytes().to_vec()
}

/// The uppercase hexadecimal character for a value below 16.
pub open spec fn hex_digit_char(n: int) -> char
    recommends
        0 <= n < 16,
{
    if n == 0 {
        '0'
    } else if n == 1 {
        '1'
    } else if n == 2 {
        '2'
    } else if n == 3 {
        '3'
    } else if n == 4 {
        '4'
    } else if n == 5 {
        '5'
    } else if n == 6 {
        '6'
    } else if n == 7 {
        '7'
    } else if n == 8 {
        '8'
    } else if n == 9 {
        '9'
    } else if n == 10 {
        'A'
    } else if n == 11 {
        'B'
    } else if n == 12 {
        'C'
    } else if n == 13 {
        'D'
    } else if n == 14 {
        'E'
    } else {
        'F'
    }
}

/// Uppercase hexadecimal rendering of a byte string: two digits per byte,
/// high nibble first.
pub open spec fn hex_upper_of(bytes: Seq<u8>) -> Seq<char>
    decreases bytes.len(),
{
    if bytes.len() == 0 {
        Seq::empty()
    } else {
        hex_upper_of(bytes.drop_last()) + seq![
            hex_digit_char(bytes.last() as int / 16),
            hex_digit_char(bytes.last() as int % 16),
        ]
    }
}

pub proof fn lemma_hex_upper_len(bytes: Seq<u8>)
    ensures
        hex_upper_of(bytes).len() == 2 * bytes.len(),
    decreases bytes.len(),
{
    if bytes.len() > 0 {
        lemma_hex_upper_len(bytes.drop_last());
    }
}

/// The uppercase hexadecimal SHA-1 fingerprint of a string: exactly 40 characters.
pub open spec fn sha1_hex(s: Seq<char>) -> Seq<char> {
    hex_upper_of(sha1_of(s))
}

fn hex_digit_str(n: u8) -> (r: &'static str)
    requires
        n < 16,
    ensures
        r@ == seq![hex_digit_char(n as int)],
{
    proof {
        reveal_strlit("0");
        reveal_strlit("1");
        reveal_strlit("2");
        reveal_strlit("3");
        reveal_strlit("4");
        reveal_strlit("5");
        reveal_strlit("6");
        reveal_strlit("7");
        reveal_strlit("8");
        reveal_strlit("9");
        reveal_strlit("A");
        reveal_strlit("B");
        reveal_strlit("C");
        reveal_strlit("D");
        reveal_strlit("E");
        reveal_strlit("F");
    }
    match n {
        0 => "0",
        1 => "1",
        2 => "2",
        3 => "3",
        4 => "4",
        5 => "5",
        6 => "6",
        7 => "7",
        8 => "8",
        9 => "9",
        10 => "A",
        11 => "B",
        12 => "C",
        13 => "D",
        14 => "E",
        _ => "F",
    }
}

/// Renders a byte string as uppercase hexadecimal, two digits per byte.
pub fn to_upper_hex(bytes: &[u8]) -> (r: String)
    ensures
        r@ == hex_upper_of(bytes@),
{
    let mut s = String::new();
    let mut i: usize = 0;
    while i < bytes.len()
        invariant
            i <= bytes@.len(),
            s@ == hex_upper_of(bytes@.subrange(0, i as int)),
        decreases bytes@.len() - i,
    {
        let b = bytes[i];
        s.append(hex_digit_str(b / 16));
        s.append(hex_digit_str(b % 16));
        proof {
            let pre = bytes@.subrange(0, (i + 1) as int);
            assert(pre.drop_last() =~= bytes@.subrange(0, i as int));
            assert(pre.last() == bytes@[i as int]);
            assert(s@ =~= hex_upper_of(pre));
        }
        i += 1;
    }
    proof {
        assert(bytes@.subrange(0, bytes@.len() as int) =~= bytes@);
    }
    s
}

/// Computes the uppercase hexadecimal SHA-1 fingerprint of a password.
pub fn sha1_hex_digest(pass: &str) -> (r: String)
    ensures
        r@ == sha1_hex(pass@),
        r@.len() == 40,
{
    let bytes = sha1_digest_bytes(pass);
    let r = to_upper_hex(bytes.as_slice());
    proof {
        lemma_hex_upper_len(sha1_of(pass@));
    }
    r
}

} // verus!
