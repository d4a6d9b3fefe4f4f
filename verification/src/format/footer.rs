//! Segment footer.
//!
//! The footer has a fixed size and stands directly before its length and the magic
//! trailer. A reader fetches the tail of the file, reads the footer, and from there
//! knows where everything else lies.
use crate::cursor::{lemma_take_uint, take_uint, Cursor};
use crate::wire::{le_bytes, lemma_pow256_values, put_u32, put_u64};
use vstd::prelude::*;

verus! {

#[derive(Copy, Clone, Debug, PartialEq, Eq, Structural)]
pub struct Footer {
    pub format_version: u32,
    pub metadata_offset: u64,
    pub metadata_length: u32,
    pub row_group_payload_offset: u64,
    pub row_group_payload_length: u64,
    pub inline_indexes_offset: u64,
    pub inline_indexes_length: u64,
    pub hotcache_offset: u64,
    pub hotcache_length: u64,
    /// CRC32 of (metadata bytes + row-group payload + inline indexes + hotcache).
    pub content_crc32: u32,
}

impl Footer {
    /// The footer in written form: ten little-endian integers.
    #[verifier::opaque]
    pub open spec fn bytes(self) -> Seq<u8> {
        le_bytes(self.format_version as nat, 4) + (le_bytes(self.metadata_offset as nat, 8) + (
        le_bytes(self.metadata_length as nat, 4) + (le_bytes(
            self.row_group_payload_offset as nat,
            8,
        ) + (le_bytes(self.row_group_payload_length as nat, 8) + (le_bytes(
            self.inline_indexes_offset as nat,
            8,
        ) + (le_bytes(self.inline_indexes_length as nat, 8) + (le_bytes(
            self.hotcache_offset as nat,
            8,
        ) + (le_bytes(self.hotcache_length as nat, 8) + le_bytes(
            self.content_crc32 as nat,
            4,
        )))))))))
    }

    /// The written form.
    pub fn to_bytes(&self) -> (r: Vec<u8>)
        ensures
            r@ == self.bytes(),
    {
        proof {
            reveal(Footer::bytes);
        }
        let mut out: Vec<u8> = Vec::new();
        put_u32(&mut out, self.format_version);
        put_u64(&mut out, self.metadata_offset);
        put_u32(&mut out, self.metadata_length);
        put_u64(&mut out, self.row_group_payload_offset);
        put_u64(&mut out, self.row_group_payload_length);
        put_u64(&mut out, self.inline_indexes_offset);
        put_u64(&mut out, self.inline_indexes_length);
        put_u64(&mut out, self.hotcache_offset);
        put_u64(&mut out, self.hotcache_length);
        put_u32(&mut out, self.content_crc32);
        assert(out@ =~= self.bytes());
        out
    }

    /// Reads a footer off the front of `bytes`; what follows it is not looked at.
    pub fn from_bytes(bytes: &[u8]) -> (r: Option<Self>)
        ensures
            match take_footer(bytes@) {
                Some((f, _)) => r == Some(f),
                None => r is None,
            },
    {
        proof {
            reveal(take_footer);
        }
        let mut c = Cursor::new(bytes);
        let format_version: u32 = match c.take_u32() {
            Some(v) => v,
            None => return None,
        };
        let metadata_offset: u64 = match c.take_u64() {
            Some(v) => v,
            None => return None,
        };
        let metadata_length: u32 = match c.take_u32() {
            Some(v) => v,
            None => return None,
        };
        let row_group_payload_offset: u64 = match c.take_u64() {
            Some(v) => v,
            None => return None,
        };
        let row_group_payload_length: u64 = match c.take_u64() {
            Some(v) => v,
            None => return None,
        };
        let inline_indexes_offset: u64 = match c.take_u64() {
            Some(v) => v,
            None => return None,
        };
        let inline_indexes_length: u64 = match c.take_u64() {
            Some(v) => v,
            None => return None,
        };
        let hotcache_offset: u64 = match c.take_u64() {
            Some(v) => v,
            None => return None,
        };
        let hotcache_length: u64 = match c.take_u64() {
            Some(v) => v,
            None => return None,
        };
        let content_crc32: u32 = match c.take_u32() {
            Some(v) => v,
            None => return None,
        };
        Some(
            Footer {
                format_version,
                metadata_offset,
                metadata_length,
                row_group_payload_offset,
                row_group_payload_length,
                inline_indexes_offset,
                inline_indexes_length,
                hotcache_offset,
                hotcache_length,
                content_crc32,
            },
        )
    }
}

/// A footer off the front.
#[verifier::opaque]
pub open spec fn take_footer(s: Seq<u8>) -> Option<(Footer, Seq<u8>)> {
    match take_uint(s, 4) {
        None => None,
        Some((a, s)) => match take_uint(s, 8) {
            None => None,
            Some((b, s)) => match take_uint(s, 4) {
                None => None,
                Some((c, s)) => match take_uint(s, 8) {
                    None => None,
                    Some((d, s)) => match take_uint(s, 8) {
                        None => None,
                        Some((e, s)) => match take_uint(s, 8) {
                            None => None,
                            Some((f, s)) => match take_uint(s, 8) {
                                None => None,
                                Some((g, s)) => match take_uint(s, 8) {
                                    None => None,
                                    Some((h, s)) => match take_uint(s, 8) {
                                        None => None,
                                        Some((i, s)) => match take_uint(s, 4) {
                                            None => None,
                                            Some((j, s)) => Some(
                                                (
                                                    Footer {
                                                        format_version: a as u32,
                                                        metadata_offset: b as u64,
                                                        metadata_length: c as u32,
                                                        row_group_payload_offset: d as u64,
                                                        row_group_payload_length: e as u64,
                                                        inline_indexes_offset: f as u64,
                                                        inline_indexes_length: g as u64,
                                                        hotcache_offset: h as u64,
                                                        hotcache_length: i as u64,
                                                        content_crc32: j as u32,
                                                    },
                                                    s,
                                                ),
                                            ),
                                        },
                                    },
                                },
                            },
                        },
                    },
                },
            },
        },
    }
}

/// A written footer has 68 bytes and reads back as the footer, whatever its fields.
pub proof fn footer_round_trip(x: Footer)
    ensures
        take_footer(x.bytes()) == Some((x, Seq::<u8>::empty())),
        x.bytes().len() == 68,
{
    reveal(Footer::bytes);
    reveal(take_footer);
    lemma_pow256_values();
    let none = Seq::<u8>::empty();
    let s9 = le_bytes(x.content_crc32 as nat, 4) + none;
    let s8 = le_bytes(x.hotcache_length as nat, 8) + s9;
    let s7 = le_bytes(x.hotcache_offset as nat, 8) + s8;
    let s6 = le_bytes(x.inline_indexes_length as nat, 8) + s7;
    let s5 = le_bytes(x.inline_indexes_offset as nat, 8) + s6;
    let s4 = le_bytes(x.row_group_payload_length as nat, 8) + s5;
    let s3 = le_bytes(x.row_group_payload_offset as nat, 8) + s4;
    let s2 = le_bytes(x.metadata_length as nat, 4) + s3;
    let s1 = le_bytes(x.metadata_offset as nat, 8) + s2;
    let s0 = le_bytes(x.format_version as nat, 4) + s1;
    assert(le_bytes(x.content_crc32 as nat, 4) + none =~= le_bytes(x.content_crc32 as nat, 4));
    assert(x.bytes() =~= s0);
    lemma_take_uint(x.format_version as nat, 4, s1);
    lemma_take_uint(x.metadata_offset as nat, 8, s2);
    lemma_take_uint(x.metadata_length as nat, 4, s3);
    lemma_take_uint(x.row_group_payload_offset as nat, 8, s4);
    lemma_take_uint(x.row_group_payload_length as nat, 8, s5);
    lemma_take_uint(x.inline_indexes_offset as nat, 8, s6);
    lemma_take_uint(x.inline_indexes_length as nat, 8, s7);
    lemma_take_uint(x.hotcache_offset as nat, 8, s8);
    lemma_take_uint(x.hotcache_length as nat, 8, s9);
    lemma_take_uint(x.content_crc32 as nat, 4, none);
    crate::wire::lemma_le_bytes_len(x.format_version as nat, 4);
    crate::wire::lemma_le_bytes_len(x.metadata_offset as nat, 8);
    crate::wire::lemma_le_bytes_len(x.metadata_length as nat, 4);
    crate::wire::lemma_le_bytes_len(x.row_group_payload_offset as nat, 8);
    crate::wire::lemma_le_bytes_len(x.row_group_payload_length as nat, 8);
    crate::wire::lemma_le_bytes_len(x.inline_indexes_offset as nat, 8);
    crate::wire::lemma_le_bytes_len(x.inline_indexes_length as nat, 8);
    crate::wire::lemma_le_bytes_len(x.hotcache_offset as nat, 8);
    crate::wire::lemma_le_bytes_len(x.hotcache_length as nat, 8);
    crate::wire::lemma_le_bytes_len(x.content_crc32 as nat, 4);
}

} // verus!
