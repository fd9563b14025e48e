//! Fixed numbers of the archive format.

use vstd::prelude::*;

verus! {

/// Length of the version header.
pub const VERSION_LEN: usize = 4;

/// The version header that every archive starts with.
pub const VERSION: [u8; 4] = [0xA0, 0xF1, 0xB2, 0x01];

/// Size of the chunks in which payloads are copied.
pub const BUFFER_SIZE: usize = 65536;

} // verus!
