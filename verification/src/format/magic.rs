//! Magic constants identifying segment files.
use vstd::prelude::*;

verus! {

/// `ZENSEGV1`
pub const MAGIC_HEADER: [u8; 8] = [0x5a, 0x45, 0x4e, 0x53, 0x45, 0x47, 0x56, 0x31];

/// `1VGESNEZ`
pub const MAGIC_TRAILER: [u8; 8] = [0x31, 0x56, 0x47, 0x45, 0x53, 0x4e, 0x45, 0x5a];

pub const FORMAT_VERSION: u32 = 1;

} // verus!
