//! Sizes and defaults shared by the crypto profile and the transport.

use vstd::prelude::*;

verus! {

/// PBKDF2 iterations used when the server names none.
pub const RFC_PBKDF2_SHA1_ITER: u32 = 4096;

/// Largest message, in bytes, that the transport accepts or emits by default.
pub const DEFAULT_IO_MAX_SIZE: usize = 65536;

/// Largest payload of one record fragment.
pub const MAX_FRAGMENT_LEN: usize = 0x7fff_ffff;

} // verus!
