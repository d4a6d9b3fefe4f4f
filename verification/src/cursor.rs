//! Reading structures off the front of a byte string.
//!
//! The structures of the segment format are written field by field: integers in
//! fixed-width little-endian form, lists and texts behind a 64-bit count, options behind
//! a one-byte tag. Each reader takes its field off the front and leaves the rest.
use crate::rows::copy_bytes;
use crate::text::utf8_string;
use crate::wire::{
    get_u32, get_u64, i64_of_pattern, i64_pattern, le, le_bytes, lemma_i64_round_trip,
    lemma_le_bytes_of_le, lemma_le_of_le_bytes, lemma_pow256_values, pow256, put_slice, put_u32,
    put_u64, put_u8, u64_to_i64,
};
use vstd::prelude::*;
use vstd::slice::slice_subrange;
use vstd::utf8::{
    decode_utf8, encode_utf8, encode_utf8_decode_utf8, encode_utf8_valid_utf8, valid_utf8,
};

verus! {

/// The next `n` bytes as a number.
pub open spec fn take_uint(s: Seq<u8>, n: nat) -> Option<(nat, Seq<u8>)> {
    if s.len() < n {
        None
    } else {
        Some((le(s.take(n as int)), s.skip(n as int)))
    }
}

/// The next eight bytes as a signed number.
pub open spec fn take_i64(s: Seq<u8>) -> Option<(i64, Seq<u8>)> {
    match take_uint(s, 8) {
        None => None,
        Some((v, rest)) => Some((i64_of_pattern(v), rest)),
    }
}

/// The next `n` bytes.
pub open spec fn take_bytes(s: Seq<u8>, n: nat) -> Option<(Seq<u8>, Seq<u8>)> {
    if s.len() < n {
        None
    } else {
        Some((s.take(n as int), s.skip(n as int)))
    }
}

/// A counted byte string.
pub open spec fn take_blob(s: Seq<u8>) -> Option<(Seq<u8>, Seq<u8>)> {
    match take_uint(s, 8) {
        None => None,
        Some((n, rest)) => take_bytes(rest, n),
    }
}

/// A counted text in UTF-8.
pub open spec fn take_text(s: Seq<u8>) -> Option<(Seq<char>, Seq<u8>)> {
    match take_blob(s) {
        None => None,
        Some((b, rest)) => if valid_utf8(b) {
            Some((decode_utf8(b), rest))
        } else {
            None
        },
    }
}

/// `n` texts.
pub open spec fn take_texts(s: Seq<u8>, n: nat) -> Option<(Seq<Seq<char>>, Seq<u8>)>
    decreases n,
{
    if n == 0 {
        Some((Seq::empty(), s))
    } else {
        match take_text(s) {
            None => None,
            Some((t, rest)) => match take_texts(rest, (n - 1) as nat) {
                None => None,
                Some((ts, end)) => Some((seq![t] + ts, end)),
            },
        }
    }
}

/// A counted list of texts.
pub open spec fn take_text_list(s: Seq<u8>) -> Option<(Seq<Seq<char>>, Seq<u8>)> {
    match take_uint(s, 8) {
        None => None,
        Some((n, rest)) => take_texts(rest, n),
    }
}

/// An optional number of `n` bytes behind a tag.
pub open spec fn take_opt(s: Seq<u8>, n: nat) -> Option<(Option<nat>, Seq<u8>)> {
    match take_uint(s, 1) {
        None => None,
        Some((tag, rest)) => if tag == 0 {
            Some((None, rest))
        } else if tag == 1 {
            match take_uint(rest, n) {
                None => None,
                Some((v, end)) => Some((Some(v), end)),
            }
        } else {
            None
        },
    }
}

/// A counted byte string in written form.
pub open spec fn blob_bytes(b: Seq<u8>) -> Seq<u8> {
    le_bytes(b.len(), 8) + b
}

/// A counted text in written form.
pub open spec fn text_bytes(t: Seq<char>) -> Seq<u8> {
    blob_bytes(encode_utf8(t))
}

/// Texts in written form.
pub open spec fn texts_bytes(ts: Seq<Seq<char>>) -> Seq<u8>
    decreases ts.len(),
{
    if ts.len() == 0 {
        Seq::empty()
    } else {
        text_bytes(ts[0]) + texts_bytes(ts.drop_first())
    }
}

/// A counted list of texts in written form.
pub open spec fn text_list_bytes(ts: Seq<Seq<char>>) -> Seq<u8> {
    le_bytes(ts.len(), 8) + texts_bytes(ts)
}

/// An optional number in written form.
pub open spec fn opt_num_bytes(v: Option<nat>, n: nat) -> Seq<u8> {
    match v {
        None => le_bytes(0, 1),
        Some(x) => le_bytes(1, 1) + le_bytes(x, n),
    }
}

pub proof fn lemma_take_uint(v: nat, n: nat, rest: Seq<u8>)
    requires
        v < pow256(n),
    ensures
        take_uint(le_bytes(v, n) + rest, n) == Some((v, rest)),
{
    lemma_le_of_le_bytes(v, n);
    let s = le_bytes(v, n) + rest;
    assert(s.take(n as int) =~= le_bytes(v, n));
    assert(s.skip(n as int) =~= rest);
}

pub proof fn lemma_take_i64(v: i64, rest: Seq<u8>)
    ensures
        take_i64(le_bytes(i64_pattern(v), 8) + rest) == Some((v, rest)),
{
    lemma_pow256_values();
    lemma_i64_round_trip(v);
    lemma_take_uint(i64_pattern(v), 8, rest);
}

pub proof fn lemma_take_bytes(b: Seq<u8>, rest: Seq<u8>)
    ensures
        take_bytes(b + rest, b.len()) == Some((b, rest)),
{
    assert((b + rest).take(b.len() as int) =~= b);
    assert((b + rest).skip(b.len() as int) =~= rest);
}

pub proof fn lemma_take_blob(b: Seq<u8>, rest: Seq<u8>)
    requires
        b.len() <= u64::MAX,
    ensures
        take_blob(blob_bytes(b) + rest) == Some((b, rest)),
{
    lemma_pow256_values();
    lemma_take_uint(b.len(), 8, b + rest);
    lemma_take_bytes(b, rest);
    assert(blob_bytes(b) + rest =~= le_bytes(b.len(), 8) + (b + rest));
}

pub proof fn lemma_take_text(t: Seq<char>, rest: Seq<u8>)
    requires
        encode_utf8(t).len() <= u64::MAX,
    ensures
        take_text(text_bytes(t) + rest) == Some((t, rest)),
{
    lemma_take_blob(encode_utf8(t), rest);
    encode_utf8_valid_utf8(t);
    encode_utf8_decode_utf8(t);
}

/// Every text is short enough for its 64-bit count.
pub open spec fn texts_fit(ts: Seq<Seq<char>>) -> bool {
    forall|i: int| 0 <= i < ts.len() ==> encode_utf8(#[trigger] ts[i]).len() <= u64::MAX
}

pub proof fn lemma_take_texts(ts: Seq<Seq<char>>, rest: Seq<u8>)
    requires
        texts_fit(ts),
    ensures
        take_texts(texts_bytes(ts) + rest, ts.len()) == Some((ts, rest)),
    decreases ts.len(),
{
    if ts.len() == 0 {
        assert(texts_bytes(ts) + rest =~= rest);
        assert(ts =~= Seq::empty());
    } else {
        let tail = ts.drop_first();
        assert(texts_fit(tail)) by {
            assert forall|i: int| 0 <= i < tail.len() implies encode_utf8(#[trigger] tail[i]).len()
                <= u64::MAX by {
                assert(tail[i] == ts[i + 1]);
            }
        }
        lemma_take_texts(tail, rest);
        lemma_take_text(ts[0], texts_bytes(tail) + rest);
        assert(texts_bytes(ts) + rest =~= text_bytes(ts[0]) + (texts_bytes(tail) + rest));
        assert(seq![ts[0]] + tail =~= ts);
    }
}

pub proof fn lemma_take_text_list(ts: Seq<Seq<char>>, rest: Seq<u8>)
    requires
        texts_fit(ts),
        ts.len() <= u64::MAX,
    ensures
        take_text_list(text_list_bytes(ts) + rest) == Some((ts, rest)),
{
    lemma_pow256_values();
    lemma_take_texts(ts, rest);
    lemma_take_uint(ts.len(), 8, texts_bytes(ts) + rest);
    assert(text_list_bytes(ts) + rest =~= le_bytes(ts.len(), 8) + (texts_bytes(ts) + rest));
}

pub proof fn lemma_take_opt(v: Option<nat>, n: nat, rest: Seq<u8>)
    requires
        v matches Some(x) ==> x < pow256(n),
    ensures
        take_opt(opt_num_bytes(v, n) + rest, n) == Some((v, rest)),
{
    lemma_pow256_values();
    match v {
        None => {
            lemma_take_uint(0, 1, rest);
        },
        Some(x) => {
            lemma_take_uint(1, 1, le_bytes(x, n) + rest);
            lemma_take_uint(x, n, rest);
            assert(opt_num_bytes(v, n) + rest =~= le_bytes(1, 1) + (le_bytes(x, n) + rest));
        },
    }
}

/// The contents of a list of strings.
pub open spec fn string_views(v: Seq<String>) -> Seq<Seq<char>> {
    Seq::new(v.len(), |i: int| v[i]@)
}

/// A position in a byte string.
pub struct Cursor<'a> {
    pub bytes: &'a [u8],
    pub pos: usize,
}

impl<'a> Cursor<'a> {
    /// The bytes not yet read.
    pub open spec fn view(&self) -> Seq<u8> {
        self.bytes@.skip(self.pos as int)
    }

    pub open spec fn wf(&self) -> bool {
        self.pos <= self.bytes@.len()
    }

    pub fn new(bytes: &'a [u8]) -> (r: Self)
        ensures
            r.wf(),
            r@ == bytes@,
    {
        let r = Cursor { bytes, pos: 0 };
        assert(r@ =~= bytes@);
        r
    }

    fn left(&self) -> (r: usize)
        requires
            self.wf(),
        ensures
            r == self@.len(),
            self.pos + r == self.bytes.len(),
    {
        self.bytes.len() - self.pos
    }

    pub fn take_u8(&mut self) -> (r: Option<u8>)
        requires
            old(self).wf(),
        ensures
            final(self).wf(),
            match take_uint(old(self)@, 1) {
                Some((v, rest)) => r matches Some(x) && x == v && final(self)@ == rest,
                None => r is None,
            },
    {
        if self.left() < 1 {
            return None;
        }
        let v: u8 = self.bytes[self.pos];
        proof {
            crate::compress::bits::lemma_le_single(v);
            assert(self@.take(1) =~= seq![v]);
        }
        let ghost before = self@;
        self.pos = self.pos + 1;
        assert(self@ =~= before.skip(1));
        Some(v)
    }

    pub fn take_u32(&mut self) -> (r: Option<u32>)
        requires
            old(self).wf(),
        ensures
            final(self).wf(),
            match take_uint(old(self)@, 4) {
                Some((v, rest)) => r matches Some(x) && x == v && final(self)@ == rest,
                None => r is None,
            },
    {
        if self.left() < 4 {
            return None;
        }
        let v: u32 = get_u32(self.bytes, self.pos);
        let ghost before = self@;
        assert(before.take(4) =~= self.bytes@.subrange(self.pos as int, self.pos + 4));
        self.pos = self.pos + 4;
        assert(self@ =~= before.skip(4));
        Some(v)
    }

    pub fn take_u64(&mut self) -> (r: Option<u64>)
        requires
            old(self).wf(),
        ensures
            final(self).wf(),
            match take_uint(old(self)@, 8) {
                Some((v, rest)) => r matches Some(x) && x == v && final(self)@ == rest,
                None => r is None,
            },
    {
        if self.left() < 8 {
            return None;
        }
        let v: u64 = get_u64(self.bytes, self.pos);
        let ghost before = self@;
        assert(before.take(8) =~= self.bytes@.subrange(self.pos as int, self.pos + 8));
        self.pos = self.pos + 8;
        assert(self@ =~= before.skip(8));
        Some(v)
    }

    pub fn take_i64(&mut self) -> (r: Option<i64>)
        requires
            old(self).wf(),
        ensures
            final(self).wf(),
            match take_i64(old(self)@) {
                Some((v, rest)) => r matches Some(x) && x == v && final(self)@ == rest,
                None => r is None,
            },
    {
        match self.take_u64() {
            Some(v) => Some(u64_to_i64(v)),
            None => None,
        }
    }

    pub fn take_u128(&mut self) -> (r: Option<u128>)
        requires
            old(self).wf(),
        ensures
            final(self).wf(),
            match take_uint(old(self)@, 16) {
                Some((v, rest)) => r matches Some(x) && x == v && final(self)@ == rest,
                None => r is None,
            },
    {
        let ghost before = self@;
        if self.left() < 16 {
            return None;
        }
        let lo: u64 = get_u64(self.bytes, self.pos);
        let hi: u64 = get_u64(self.bytes, self.pos + 8);
        proof {
            let a = before.take(8);
            let b = before.subrange(8, 16);
            assert(a =~= self.bytes@.subrange(self.pos as int, self.pos + 8));
            assert(b =~= self.bytes@.subrange(self.pos + 8, self.pos + 16));
            assert(before.take(16) =~= a + b);
            crate::compress::bits::lemma_le_concat(a, b);
            lemma_pow256_values();
        }
        self.pos = self.pos + 16;
        assert(self@ =~= before.skip(16));
        Some(lo as u128 + hi as u128 * 0x1_0000_0000_0000_0000)
    }

    pub fn take_bytes(&mut self, n: u64) -> (r: Option<Vec<u8>>)
        requires
            old(self).wf(),
        ensures
            final(self).wf(),
            match take_bytes(old(self)@, n as nat) {
                Some((v, rest)) => r matches Some(x) && x@ == v && final(self)@ == rest,
                None => r is None,
            },
    {
        if (self.left() as u64) < n {
            return None;
        }
        let ghost before = self@;
        let len: usize = n as usize;
        let v: Vec<u8> = copy_bytes(slice_subrange(self.bytes, self.pos, self.pos + len));
        assert(v@ =~= before.take(n as int));
        self.pos = self.pos + len;
        assert(self@ =~= before.skip(n as int));
        Some(v)
    }

    pub fn take_array16(&mut self) -> (r: Option<[u8; 16]>)
        requires
            old(self).wf(),
        ensures
            final(self).wf(),
            match take_bytes(old(self)@, 16) {
                Some((v, rest)) => r matches Some(x) && x@ == v && final(self)@ == rest,
                None => r is None,
            },
    {
        if self.left() < 16 {
            return None;
        }
        let ghost before = self@;
        let a: [u8; 16] = crate::format::page::array16(self.bytes, self.pos);
        assert(a@ =~= before.take(16));
        self.pos = self.pos + 16;
        assert(self@ =~= before.skip(16));
        Some(a)
    }

    pub fn take_blob(&mut self) -> (r: Option<Vec<u8>>)
        requires
            old(self).wf(),
        ensures
            final(self).wf(),
            match take_blob(old(self)@) {
                Some((v, rest)) => r matches Some(x) && x@ == v && final(self)@ == rest,
                None => r is None,
            },
    {
        match self.take_u64() {
            Some(n) => self.take_bytes(n),
            None => None,
        }
    }

    pub fn take_text(&mut self) -> (r: Option<String>)
        requires
            old(self).wf(),
        ensures
            final(self).wf(),
            match take_text(old(self)@) {
                Some((v, rest)) => r matches Some(x) && x@ == v && final(self)@ == rest,
                None => r is None,
            },
    {
        match self.take_blob() {
            Some(b) => utf8_string(b),
            None => None,
        }
    }

    pub fn take_text_list(&mut self) -> (r: Option<Vec<String>>)
        requires
            old(self).wf(),
        ensures
            final(self).wf(),
            match take_text_list(old(self)@) {
                Some((v, rest)) => r matches Some(x) && string_views(x@) == v && final(self)@
                    == rest,
                None => r is None,
            },
    {
        let ghost whole = take_text_list(self@);
        let n: u64 = match self.take_u64() {
            Some(n) => n,
            None => return None,
        };
        let mut out: Vec<String> = Vec::new();
        let mut i: u64 = 0;
        proof {
            assert(string_views(out@) =~= Seq::empty());
            if let Some((all, end)) = whole {
                assert(Seq::<Seq<char>>::empty() + all =~= all);
            }
        }
        while i < n
            invariant
                self.wf(),
                i <= n,
                whole == take_text_list(old(self)@),
                match take_texts(self@, (n - i) as nat) {
                    Some((ts, end)) => whole == Some((string_views(out@) + ts, end)),
                    None => whole is None,
                },
            decreases n - i,
        {
            let ghost before = string_views(out@);
            match self.take_text() {
                Some(t) => {
                    let ghost content = t@;
                    out.push(t);
                    proof {
                        assert(string_views(out@) =~= before.push(content));
                        if let Some((ts, end)) = take_texts(self@, (n - i - 1) as nat) {
                            assert(before + (seq![content] + ts) =~= before.push(content) + ts);
                        }
                    }
                },
                None => return None,
            }
            i = i + 1;
        }
        assert(string_views(out@) + Seq::<Seq<char>>::empty() =~= string_views(out@));
        Some(out)
    }

    pub fn take_opt_u64(&mut self) -> (r: Option<Option<u64>>)
        requires
            old(self).wf(),
        ensures
            final(self).wf(),
            match take_opt(old(self)@, 8) {
                Some((v, rest)) => r matches Some(x) && opt_nat64(x) == v && final(self)@ == rest,
                None => r is None,
            },
    {
        match self.take_u8() {
            Some(0) => Some(None),
            Some(1) => match self.take_u64() {
                Some(v) => Some(Some(v)),
                None => None,
            },
            _ => None,
        }
    }

    pub fn take_opt_u32(&mut self) -> (r: Option<Option<u32>>)
        requires
            old(self).wf(),
        ensures
            final(self).wf(),
            match take_opt(old(self)@, 4) {
                Some((v, rest)) => r matches Some(x) && opt_nat32(x) == v && final(self)@ == rest,
                None => r is None,
            },
    {
        match self.take_u8() {
            Some(0) => Some(None),
            Some(1) => match self.take_u32() {
                Some(v) => Some(Some(v)),
                None => None,
            },
            _ => None,
        }
    }
}

pub open spec fn opt_nat64(o: Option<u64>) -> Option<nat> {
    match o {
        Some(v) => Some(v as nat),
        None => None,
    }
}

pub open spec fn opt_nat32(o: Option<u32>) -> Option<nat> {
    match o {
        Some(v) => Some(v as nat),
        None => None,
    }
}

pub fn put_u128(out: &mut Vec<u8>, v: u128)
    ensures
        final(out)@ == old(out)@ + le_bytes(v as nat, 16),
{
    let lo: u64 = (v % 0x1_0000_0000_0000_0000) as u64;
    let hi: u64 = (v / 0x1_0000_0000_0000_0000) as u64;
    let ghost before = out@;
    put_u64(out, lo);
    put_u64(out, hi);
    proof {
        let a = le_bytes(lo as nat, 8);
        let b = le_bytes(hi as nat, 8);
        lemma_pow256_values();
        lemma_le_of_le_bytes(lo as nat, 8);
        lemma_le_of_le_bytes(hi as nat, 8);
        crate::compress::bits::lemma_le_concat(a, b);
        lemma_le_bytes_of_le(a + b);
        assert(le(a + b) == v);
        assert(before + a + b =~= before + (a + b));
    }
}

pub fn put_len64(out: &mut Vec<u8>, v: usize)
    ensures
        final(out)@ == old(out)@ + le_bytes(v as nat, 8),
{
    put_u64(out, v as u64);
}

pub fn put_blob(out: &mut Vec<u8>, b: &[u8])
    ensures
        final(out)@ == old(out)@ + blob_bytes(b@),
{
    let ghost before = out@;
    put_len64(out, b.len());
    put_slice(out, b);
    assert(out@ =~= before + blob_bytes(b@));
}

pub fn put_text(out: &mut Vec<u8>, t: &str)
    ensures
        final(out)@ == old(out)@ + text_bytes(t@),
{
    put_blob(out, t.as_bytes());
}

pub fn put_text_list(out: &mut Vec<u8>, ts: &Vec<String>)
    ensures
        final(out)@ == old(out)@ + text_list_bytes(string_views(ts@)),
{
    let ghost before = out@;
    let ghost all = string_views(ts@);
    put_len64(out, ts.len());
    let ghost head = out@;
    let mut i: usize = 0;
    assert(all.skip(0) =~= all);
    while i < ts.len()
        invariant
            i <= ts@.len(),
            all == string_views(ts@),
            out@ + texts_bytes(all.skip(i as int)) == head + texts_bytes(all),
        decreases ts.len() - i,
    {
        let ghost mid = out@;
        put_text(out, ts[i].as_str());
        proof {
            let here = all.skip(i as int);
            assert(here.drop_first() =~= all.skip(i + 1));
            assert(mid + (text_bytes(here[0]) + texts_bytes(all.skip(i + 1))) =~= out@
                + texts_bytes(all.skip(i + 1)));
        }
        i = i + 1;
    }
    assert(all.skip(i as int) =~= Seq::empty());
    assert(out@ + Seq::<u8>::empty() =~= out@);
    assert(out@ =~= before + text_list_bytes(all));
}

pub fn put_opt_u64(out: &mut Vec<u8>, v: Option<u64>)
    ensures
        final(out)@ == old(out)@ + opt_num_bytes(opt_nat64(v), 8),
{
    let ghost before = out@;
    match v {
        None => {
            put_u8(out, 0);
        },
        Some(x) => {
            put_u8(out, 1);
            put_u64(out, x);
            assert(out@ =~= before + opt_num_bytes(opt_nat64(v), 8));
        },
    }
}

pub fn put_opt_u32(out: &mut Vec<u8>, v: Option<u32>)
    ensures
        final(out)@ == old(out)@ + opt_num_bytes(opt_nat32(v), 4),
{
    let ghost before = out@;
    match v {
        None => {
            put_u8(out, 0);
        },
        Some(x) => {
            put_u8(out, 1);
            put_u32(out, x);
            assert(out@ =~= before + opt_num_bytes(opt_nat32(v), 4));
        },
    }
}

} // verus!
