//! Fixed sizes of the SM3 algorithm.

use vstd::prelude::*;

verus! {

/// Number of bytes in the digest (256 bits).
pub const SM3_DIGEST_BYTE_LENGTH: usize = 32;

/// Number of bytes in one compression block (512 bits).
pub const SM3_BUFFER_BYTE_LENGTH: usize = 64;

/// Number of bytes of the big-endian bit-length field in the final block.
pub const SM3_DATA_BYTE_MAX_LENGTH: usize = 8;

} // verus!
