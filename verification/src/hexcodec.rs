//! Hexadecimal encoding of key material. The encoding and decoding calls go
//! to the `hex` crate; their exact behaviour is stated here over the
//! library's own spec functions, and the round trip is proved from those
//! statements.

use vstd::prelude::*;

verus! {

/// The lowercase hexadecimal digit of a value below sixteen.
pub open spec fn hex_digit_char(d: int) -> char {
    if d == 0 {
        '0'
    } else if d == 1 {
        '1'
    } else if d == 2 {
        '2'
    } else if d == 3 {
        '3'
    } else if d == 4 {
        '4'
    } else if d == 5 {
        '5'
    } else if d == 6 {
        '6'
    } else if d == 7 {
        '7'
    } else if d == 8 {
        '8'
    } else if d == 9 {
        '9'
    } else if d == 10 {
        'a'
    } else if d == 11 {
        'b'
    } else if d == 12 {
        'c'
    } else if d == 13 {
        'd'
    } else if d == 14 {
        'e'
    } else {
        'f'
    }
}

/// The lowercase hex encoding of a byte string: two digits per byte, high
/// half first.
pub open spec fn hex_chars_of(b: Seq<u8>) -> Seq<char> {
    Seq::new(
        2 * b.len(),
        |i: int|
            if i % 2 == 0 {
                hex_digit_char(b[i / 2] as int / 16)
            } else {
                hex_digit_char(b[i / 2] as int % 16)
            },
    )
}

/// A hexadecimal digit, either case.
pub open spec fn is_hex_digit(c: char) -> bool {
    ('0' <= c && c <= '9') || ('a' <= c && c <= 'f') || ('A' <= c && c <= 'F')
}

/// The value of a hexadecimal digit.
pub open spec fn hex_val(c: char) -> int {
    if '0' <= c && c <= '9' {
        c as int - '0' as int
    } else if 'a' <= c && c <= 'f' {
        c as int - 'a' as int + 10
    } else {
        c as int - 'A' as int + 10
    }
}

/// A decodable hex string: even length, hex digits throughout.
pub open spec fn valid_hex(s: Seq<char>) -> bool {
    s.len() % 2 == 0 && forall|i: int| 0 <= i < s.len() ==> is_hex_digit(#[trigger] s[i])
}

/// The bytes named by a hex string.
pub open spec fn hex_bytes_of(s: Seq<char>) -> Seq<u8> {
    Seq::new(s.len() / 2, |i: int| (hex_val(s[2 * i]) * 16 + hex_val(s[2 * i + 1])) as u8)
}

/// Relies on hex::encode: the lowercase hex string of the bytes, two digits
/// per byte, high half first.
#[verifier::external_body]
pub fn hex_encode(b: &Vec<u8>) -> (r: String)
    ensures
        r@ == hex_chars_of(b@),
{
    hex::encode(b)
}

/// Relies on hex::decode: succeeds exactly on even-length strings of hex
/// digits of either case, and returns the bytes they name.
#[verifier::external_body]
pub fn hex_decode(s: &str) -> (r: Option<Vec<u8>>)
    ensures
        r is Some <==> valid_hex(s@),
        r matches Some(v) ==> v@ == hex_bytes_of(s@),
{
    match hex::decode(s) {
        Ok(v) => Some(v),
        Err(_) => None,
    }
}

/// A digit produced by the encoding decodes to its value.
proof fn lemma_hex_digit_round(d: int)
    requires
        0 <= d < 16,
    ensures
        is_hex_digit(hex_digit_char(d)),
        hex_val(hex_digit_char(d)) == d,
{
}

/// Law: hex-encoding any byte string yields a decodable string, and
/// decoding it restores the bytes exactly.
pub proof fn lemma_hex_round_trip(b: Seq<u8>)
    ensures
        valid_hex(hex_chars_of(b)),
        hex_bytes_of(hex_chars_of(b)) == b,
{
    let s = hex_chars_of(b);
    assert forall|i: int| 0 <= i < s.len() implies is_hex_digit(#[trigger] s[i]) by {
        if i % 2 == 0 {
            lemma_hex_digit_round(b[i / 2] as int / 16);
        } else {
            lemma_hex_digit_round(b[i / 2] as int % 16);
        }
    }
    assert(hex_bytes_of(s) =~= b) by {
        assert forall|i: int| 0 <= i < b.len() implies #[trigger] hex_bytes_of(s)[i] == b[i] by {
            assert(s[2 * i] == hex_digit_char(b[i] as int / 16));
            assert(s[2 * i + 1] == hex_digit_char(b[i] as int % 16));
            lemma_hex_digit_round(b[i] as int / 16);
            lemma_hex_digit_round(b[i] as int % 16);
            assert(b[i] as int / 16 * 16 + b[i] as int % 16 == b[i] as int);
        }
    }
}

} // verus!
