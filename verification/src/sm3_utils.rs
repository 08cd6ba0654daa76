//! One-call digests over the streaming engine, and hex rendering.

use vstd::prelude::*;

use crate::sm3_constant::SM3_DIGEST_BYTE_LENGTH;
use crate::sm3_digest::SM3Digest;
use crate::sm3_spec;

verus! {

/// Relies on `String::push`: it appends exactly the one given character at
/// the end of the string and changes nothing else.
pub assume_specification[ String::push ](s: &mut String, ch: char)
    ensures
        final(s)@ == old(s)@.push(ch),
;

/// One hexadecimal digit character for a value below 16; `base` is the
/// character code of the digit ten (`'a'` or `'A'`).
fn byte_to_hex(byte: u8, base: u8) -> (c: char)
    requires
        byte < 16,
        base == 97 || base == 65,
    ensures
        c == sm3_spec::hex_digit(byte, base),
{
    if byte < 10 {
        (48 + byte) as char
    } else {
        (base + byte - 10) as char
    }
}

/// Render a digest as 64 hexadecimal characters, two per byte, most
/// significant nibble first; `base` selects lower case (`97`, `'a'`) or
/// upper case (`65`, `'A'`) letter digits.
pub fn binary_to_hex_string(data: [u8; SM3_DIGEST_BYTE_LENGTH], base: u8) -> (hex: String)
    requires
        base == 97 || base == 65,
    ensures
        hex@ == sm3_spec::hex_string(data@, base),
{
    let mut hex_string = String::new();
    let mut i: usize = 0;
    while i < SM3_DIGEST_BYTE_LENGTH
        invariant
            i <= 32,
            data@.len() == 32,
            base == 97 || base == 65,
            hex_string@.len() == 2 * i,
            forall|k: int|
                0 <= k < 2 * i ==> hex_string@[k] == sm3_spec::hex_string(data@, base)[k],
        decreases 32 - i,
    {
        let byte = data[i];
        hex_string.push(byte_to_hex(byte / 16, base));
        hex_string.push(byte_to_hex(byte % 16, base));
        i += 1;
    }
    proof {
        assert(hex_string@ =~= sm3_spec::hex_string(data@, base));
    }
    hex_string
}

/// One-call digest helpers.
pub struct SM3Utils;

impl SM3Utils {
    /// The SM3 digest of a byte slice, in one call.
    pub fn sm3_data_digest(data: &[u8]) -> (digest: [u8; SM3_DIGEST_BYTE_LENGTH])
        requires
            8 * data@.len() <= u64::MAX,
        ensures
            digest@ == sm3_spec::sm3_digest(data@),
    {
        let mut sm3 = SM3Digest::new();
        sm3.push_data(data);
        proof {
            assert(sm3.pushed@ =~= data@);
        }
        sm3.compute_digest();
        sm3.get_digest_bytes()
    }
}

} // verus!
