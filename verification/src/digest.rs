use vstd::prelude::*;
use crate::strutil::digit_char;

verus! {

/// What SHA-256 returns for the UTF-8 encoding of a character sequence. The
/// algorithm is not restated here: the name stands for the outside
/// function's result, which depends on the characters alone.
pub uninterp spec fn sha256_utf8(text: Seq<char>) -> Seq<u8>;

/// Relies on sha2's `Sha256::digest`: the digest is a pure function of the
/// input bytes (here the UTF-8 encoding of `text`) and is 32 bytes long.
#[verifier::external_body]
fn sha256_of_str(text: &str) -> (r: Vec<u8>)
    ensures
        r@ == sha256_utf8(text@),
        r@.len() == 32,
{
    <sha2::Sha256 as sha2::Digest>::digest(text.as_bytes()).to_vec()
}

/// The lowercase hex digit for a value below sixteen.
pub open spec fn hex_digit(d: u8) -> char {
    if d < 10 {
        digit_char(d as nat)
    } else if d == 10 {
        'a'
    } else if d == 11 {
        'b'
    } else if d == 12 {
        'c'
    } else if d == 13 {
        'd'
    } else if d == 14 {
        'e'
    } else {
        'f'
    }
}

/// The two lowercase hex digits of one byte, high nibble first.
pub open spec fn hex_pair(b: u8) -> Seq<char> {
    seq![hex_digit(b / 16), hex_digit(b % 16)]
}

fn hex_digit_str(d: u8) -> (r: &'static str)
    requires
        d < 16,
    ensures
        r@ =~= seq![hex_digit(d)],
{
    proof {
        reveal_strlit("0");
        reveal_strlit("1");
        reveal_strlit("2");
        reveal_strlit("3");
        reveal_strlit("4");
        reveal_strlit("5");
        reveal_strlit("6");
        reveal_strlit("7");
        reveal_strlit("8");
        reveal_strlit("9");
        reveal_strlit("a");
        reveal_strlit("b");
        reveal_strlit("c");
        reveal_strlit("d");
        reveal_strlit("e");
        reveal_strlit("f");
    }
    if d == 0 {
        "0"
    } else if d == 1 {
        "1"
    } else if d == 2 {
        "2"
    } else if d == 3 {
        "3"
    } else if d == 4 {
        "4"
    } else if d == 5 {
        "5"
    } else if d == 6 {
        "6"
    } else if d == 7 {
        "7"
    } else if d == 8 {
        "8"
    } else if d == 9 {
        "9"
    } else if d == 10 {
        "a"
    } else if d == 11 {
        "b"
    } else if d == 12 {
        "c"
    } else if d == 13 {
        "d"
    } else if d == 14 {
        "e"
    } else {
        "f"
    }
}

/// The first two characters of the lowercase hex fingerprint of `text`:
/// the hex digits of the digest's leading byte.
pub open spec fn fingerprint_suffix(text: Seq<char>) -> Seq<char> {
    hex_pair(sha256_utf8(text)[0])
}

/// Computes the two-character fingerprint suffix used to disambiguate
/// course ids.
pub fn suffix_of_fingerprint(text: &str) -> (r: String)
    ensures
        r@ == fingerprint_suffix(text@),
{
    let digest = sha256_of_str(text);
    let b = digest[0];
    let r = hex_digit_str(b / 16).to_owned().concat(hex_digit_str(b % 16));
    proof {
        assert(r@ =~= fingerprint_suffix(text@));
    }
    r
}

} // verus!
