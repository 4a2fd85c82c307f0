//! Content hashing: hex-encoded SHA-256 digests of byte content.
//!
//! The digest itself comes from the `sha2` crate; spelling it out in
//! lower-case hexadecimal, two digits per byte, is done and proved
//! here.

use vstd::prelude::*;

use crate::archive::bytes_to_string;

verus! {

/// What SHA-256 returns for the data: a pure function of the bytes
/// alone, 32 bytes long.
pub uninterp spec fn sha256_of(data: Seq<u8>) -> Seq<u8>;

/// Relies on sha2's `Sha256::digest`: the SHA-256 digest of the data,
/// a function of the data alone.
#[verifier::external_body]
fn sha256_digest(data: &[u8]) -> (r: Vec<u8>)
    ensures
        r@ == sha256_of(data@),
        r@.len() == 32,
{
    <sha2::Sha256 as sha2::Digest>::digest(data).to_vec()
}

/// The lower-case hexadecimal digit for a value below sixteen.
pub open spec fn hex_digit(n: int) -> char {
    if n == 0 {
        '0'
    } else if n == 1 {
        '1'
    } else if n == 2 {
        '2'
    } else if n == 3 {
        '3'
    } else if n == 4 {
        '4'
    } else if n == 5 {
        '5'
    } else if n == 6 {
        '6'
    } else if n == 7 {
        '7'
    } else if n == 8 {
        '8'
    } else if n == 9 {
        '9'
    } else if n == 10 {
        'a'
    } else if n == 11 {
        'b'
    } else if n == 12 {
        'c'
    } else if n == 13 {
        'd'
    } else if n == 14 {
        'e'
    } else {
        'f'
    }
}

/// The lower-case hexadecimal spelling of bytes: two digits per byte,
/// high nibble first.
pub open spec fn hex_chars(bytes: Seq<u8>) -> Seq<char> {
    Seq::new(
        bytes.len() * 2,
        |i: int|
            if i % 2 == 0 {
                hex_digit(bytes[i / 2] as int / 16)
            } else {
                hex_digit(bytes[i / 2] as int % 16)
            },
    )
}

/// The ASCII code of the lower-case hexadecimal digit for a value
/// below sixteen.
fn hex_digit_code(n: u8) -> (r: u8)
    requires
        n < 16,
    ensures
        r == hex_digit(n as int) as u8,
        r < 128,
{
    if n < 10 {
        48 + n
    } else {
        87 + n
    }
}

/// Spell bytes in lower-case hexadecimal, two digits per byte, high
/// nibble first.
pub fn to_hex_string(bytes: &[u8]) -> (r: String)
    requires
        bytes@.len() <= usize::MAX / 2,
    ensures
        r@ == hex_chars(bytes@),
{
    let n: usize = bytes.len();
    let mut out: Vec<u8> = Vec::new();
    let mut i: usize = 0;
    while i < n
        invariant
            n == bytes@.len(),
            n <= usize::MAX / 2,
            0 <= i <= n,
            out@.len() == 2 * i,
            forall|k: int|
                0 <= k < out@.len() ==> #[trigger] out@[k] == hex_chars(bytes@)[k] as u8,
        decreases n - i,
    {
        let b = bytes[i];
        out.push(hex_digit_code(b / 16));
        out.push(hex_digit_code(b % 16));
        i = i + 1;
        proof {
            assert(hex_chars(bytes@)[2 * (i - 1)] == hex_digit(bytes@[i - 1] as int / 16));
            assert(hex_chars(bytes@)[2 * (i - 1) + 1] == hex_digit(bytes@[i - 1] as int % 16));
        }
    }
    proof {
        let chars = hex_chars(bytes@);
        assert(vstd::utf8::is_ascii_chars(chars)) by {
            assert forall|k| 0 <= k < chars.len() implies '\0' <= #[trigger] chars[k]
                <= '\u{7f}' by {
                let nib = if k % 2 == 0 {
                    bytes@[k / 2] as int / 16
                } else {
                    bytes@[k / 2] as int % 16
                };
                assert(0 <= nib < 16);
                assert(chars[k] == hex_digit(nib));
            }
        }
        vstd::utf8::is_ascii_chars_encode_utf8(chars);
        assert(out@ =~= vstd::utf8::encode_utf8(chars));
        vstd::utf8::encode_utf8_valid_utf8(chars);
        vstd::utf8::encode_utf8_decode_utf8(chars);
    }
    match bytes_to_string(out) {
        Ok(s) => s,
        Err(_) => vstd::pervasive::unreached(),
    }
}

/// The hex-encoded SHA-256 digest of the content: sixty-four
/// lower-case hexadecimal digits.
pub fn get_sha256_of_bytes(data: &[u8]) -> (r: String)
    ensures
        r@ == hex_chars(sha256_of(data@)),
        r@.len() == 64,
{
    let digest = sha256_digest(data);
    to_hex_string(digest.as_slice())
}

} // verus!
