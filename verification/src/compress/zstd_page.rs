//! ZSTD for page-level compression.
use crate::common::errors::ZenError;
use crate::outside::codecs::{zstd_content, zstd_decode, zstd_encode, zstd_framed};
use crate::text::concat2;
use vstd::prelude::*;

verus! {

/// Default compression level, a good tradeoff of speed and ratio.
pub const DEFAULT_LEVEL: i32 = 3;

/// Compresses `input` at a level into one frame that decodes back to it.
pub fn zstd_compress(input: &[u8], level: i32) -> (r: Result<Vec<u8>, ZenError>)
    ensures
        match r {
            Ok(frame) => zstd_content(frame@) == Ok::<Seq<u8>, Seq<char>>(input@) && zstd_framed(
                input@,
                level,
                frame@,
            ),
            Err(e) => e matches ZenError::Compress(m) && exists|t: Seq<char>|
                m@ == #[trigger] ("zstd encode: "@ + t),
        },
{
    match zstd_encode(input, level) {
        Ok(frame) => Ok(frame),
        Err(text) => {
            let m: String = concat2("zstd encode: ", text.as_str());
            assert(m@ == "zstd encode: "@ + text@);
            Err(ZenError::Compress(m))
        },
    }
}

/// Decodes the frames in `input`.
pub fn zstd_decompress(input: &[u8]) -> (r: Result<Vec<u8>, ZenError>)
    ensures
        match zstd_content(input@) {
            Ok(data) => r matches Ok(v) && v@ == data,
            Err(text) => r matches Err(ZenError::Compress(m)) && m@ == "zstd decode: "@ + text,
        },
{
    match zstd_decode(input) {
        Ok(data) => Ok(data),
        Err(text) => Err(ZenError::Compress(concat2("zstd decode: ", text.as_str()))),
    }
}

} // verus!
