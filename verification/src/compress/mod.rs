//! Encoding primitives for the segment format: byte-in / byte-out codecs for every
//! page type.
use vstd::prelude::*;

pub mod bits;
pub mod dict;
pub mod for_bitpack;
pub mod fsst;
pub mod gorilla;
pub mod layout_laws;
pub mod rle;
pub mod zstd_page;

pub use dict::{DictBuilder, DictDecoder};
pub use for_bitpack::{for_decompress, for_encode};
pub use fsst::{FsstCompressor, FsstHeader};
pub use gorilla::{gorilla_decompress, gorilla_encode};
pub use rle::{rle_decompress, rle_encode};
pub use zstd_page::{zstd_compress, zstd_decompress};

verus! {

/// Encoding tag stored in every page header so the reader knows how to decode.
#[derive(Copy, Clone, Eq, PartialEq, Debug, Structural)]
pub enum Encoding {
    /// Raw bytes (e.g. fixed-width binary like trace_id).
    Raw,
    /// FSST + ZSTD wrap for wide string columns.
    FsstZstd,
    /// Pure ZSTD (no FSST training data).
    Zstd,
    /// Gorilla XOR for f64 series.
    Gorilla,
    /// Frame-of-Reference + bit-packed varint for ints.
    For,
    /// Run-length encoding.
    Rle,
    /// Dictionary keys + LZ4 wrap.
    Dict,
}

impl Encoding {
    /// The byte that stands for the encoding.
    pub open spec fn tag(self) -> u8 {
        match self {
            Encoding::Raw => 0,
            Encoding::FsstZstd => 1,
            Encoding::Zstd => 2,
            Encoding::Gorilla => 3,
            Encoding::For => 4,
            Encoding::Rle => 5,
            Encoding::Dict => 6,
        }
    }

    pub fn as_u8(self) -> (r: u8)
        ensures
            r == self.tag(),
    {
        match self {
            Encoding::Raw => 0,
            Encoding::FsstZstd => 1,
            Encoding::Zstd => 2,
            Encoding::Gorilla => 3,
            Encoding::For => 4,
            Encoding::Rle => 5,
            Encoding::Dict => 6,
        }
    }

    /// The encoding that the byte stands for, if there is one.
    pub fn try_from_u8(x: u8) -> (r: Option<Self>)
        ensures
            match r {
                Some(e) => e.tag() == x,
                None => forall|e: Encoding| #[trigger] e.tag() != x,
            },
    {
        match x {
            0 => Some(Encoding::Raw),
            1 => Some(Encoding::FsstZstd),
            2 => Some(Encoding::Zstd),
            3 => Some(Encoding::Gorilla),
            4 => Some(Encoding::For),
            5 => Some(Encoding::Rle),
            6 => Some(Encoding::Dict),
            _ => None,
        }
    }
}

/// No two encodings share a byte, so the byte of an encoding reads back as it.
pub proof fn encoding_tags_distinct(a: Encoding, b: Encoding)
    requires
        a.tag() == b.tag(),
    ensures
        a == b,
{
}

} // verus!
