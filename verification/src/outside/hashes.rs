//! Hash functions and checksums.
use vstd::prelude::*;

verus! {

/// What `xxhash_rust::xxh3::xxh3_64` returns for `data`.
pub uninterp spec fn xxh3_64_of(data: Seq<u8>) -> u64;

/// What `xxhash_rust::xxh3::xxh3_128` returns for `data`.
pub uninterp spec fn xxh3_128_of(data: Seq<u8>) -> u128;

/// Calls `xxhash_rust::xxh3::xxh3_64`. The 64-bit XXH3 hash with the default secret and
/// no seed is a function of the bytes alone.
#[verifier::external_body]
pub(crate) fn xxh3_64(data: &[u8]) -> (r: u64)
    ensures
        r == xxh3_64_of(data@),
{
    xxhash_rust::xxh3::xxh3_64(data)
}

/// Calls `xxhash_rust::xxh3::xxh3_128`. The 128-bit XXH3 hash with the default secret
/// and no seed is a function of the bytes alone.
#[verifier::external_body]
pub(crate) fn xxh3_128(data: &[u8]) -> (r: u128)
    ensures
        r == xxh3_128_of(data@),
{
    xxhash_rust::xxh3::xxh3_128(data)
}

/// What `crc32fast::hash` returns for `data`.
pub uninterp spec fn crc32_of(data: Seq<u8>) -> u32;

/// Calls `crc32fast::hash`. The CRC-32 checksum is a function of the bytes alone.
#[verifier::external_body]
pub(crate) fn crc32(data: &[u8]) -> (r: u32)
    ensures
        r == crc32_of(data@),
{
    crc32fast::hash(data)
}

} // verus!
