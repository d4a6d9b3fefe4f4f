//! Dictionary encoding for low-cardinality string columns.
//!
//! The encoder emits a sorted dictionary plus a key array whose keys are one, two or
//! four bytes wide depending on the cardinality. The key array is LZ4-compressed since
//! keys often come in long runs.
//!
//! ```text
//! count_rows: u32 le
//! dict_size:  u32 le
//! key_width:  u8 (1 = u8, 2 = u16, 4 = u32)
//! dict_bytes: u32 le
//! dict:       length-prefixed entries (u16 le len + bytes) * dict_size
//! key_bytes:  u32 le (compressed length)
//! key_block:  LZ4 compressed key array
//! ```
use crate::common::errors::ZenError;
use crate::intern::{distinct, Interner};
use crate::order::{
    is_stable_order, lemma_lex_antisymmetric, lex_le, lex_lt, lists, sort_order, stable_before,
};
use crate::outside::codecs::{
    lz4_compress, lz4_content, lz4_decompress, lz4_holds, lz4_lengths_fit, lz4_run, lz4_sum,
};
use crate::rows::{
    byte_rows, copy_bytes, flat, lemma_flat_first, lemma_flat_push, lemma_flat_uniform_at,
    lemma_flat_uniform_len, slice_rows, uniform,
};
use crate::text::{concat2, concat3, decimal, decimal_string};
use crate::wire::{
    get_u16, get_u32, le, le_bytes, lemma_le_bytes_len, lemma_le_of_le_bytes, lemma_pow256_values,
    lemma_u32_round_trip, put_len32, put_slice, put_u16, put_u8,
};
use vstd::prelude::*;
use vstd::slice::slice_subrange;

verus! {

/// `dict` holds exactly the values of `rows`, in strictly increasing order.
pub open spec fn is_dictionary(dict: Seq<Seq<u8>>, rows: Seq<Seq<u8>>) -> bool {
    &&& forall|i: int, j: int|
        0 <= i < j < dict.len() ==> lex_lt(#[trigger] dict[i], #[trigger] dict[j])
    &&& forall|k: int| 0 <= k < rows.len() ==> dict.contains(#[trigger] rows[k])
    &&& forall|i: int| 0 <= i < dict.len() ==> rows.contains(#[trigger] dict[i])
}

/// The bytes per key for a dictionary of `n` entries.
pub open spec fn key_width(n: nat) -> nat {
    if n <= 0x100 {
        1
    } else if n <= 0x1_0000 {
        2
    } else {
        4
    }
}

/// The dictionary entries, length-prefixed.
pub open spec fn entry_parts(dict: Seq<Seq<u8>>) -> Seq<Seq<u8>> {
    Seq::new(dict.len(), |i: int| le_bytes(dict[i].len(), 2) + dict[i])
}

/// The keys of the rows: their places in the dictionary.
pub open spec fn key_parts(dict: Seq<Seq<u8>>, rows: Seq<Seq<u8>>) -> Seq<Seq<u8>> {
    Seq::new(
        rows.len(),
        |k: int| le_bytes(dict.index_of(rows[k]) as nat, key_width(dict.len())),
    )
}

/// The page made of a dictionary, the row count and the compressed keys.
pub open spec fn dict_page_bytes(dict: Seq<Seq<u8>>, count: nat, block: Seq<u8>) -> Seq<u8> {
    let entries = flat(entry_parts(dict));
    le_bytes(count, 4) + le_bytes(dict.len(), 4) + le_bytes(key_width(dict.len()), 1) + le_bytes(
        entries.len(),
        4,
    ) + entries + le_bytes(block.len(), 4) + block
}

/// `bytes` is a page of `rows`.
pub open spec fn is_dict_page(bytes: Seq<u8>, rows: Seq<Seq<u8>>) -> bool {
    exists|dict: Seq<Seq<u8>>, block: Seq<u8>|
        #![trigger dict_page_bytes(dict, rows.len(), block)]
        is_dictionary(dict, rows) && lz4_holds(block, flat(key_parts(dict, rows))) && bytes
            == dict_page_bytes(dict, rows.len(), block)
}

/// Some entry is too long for the 16-bit length of the format.
pub open spec fn has_long_row(rows: Seq<Seq<u8>>) -> bool {
    exists|k: int| 0 <= k < rows.len() && (#[trigger] rows[k]).len() > u16::MAX
}

/// The first `n` entries in `bytes`, or why they cannot be read.
pub open spec fn dict_entries(bytes: Seq<u8>, n: nat) -> Result<Seq<Seq<u8>>, Seq<char>>
    decreases n,
{
    if n == 0 {
        Ok(Seq::empty())
    } else if bytes.len() < 2 {
        Err("dict entry truncated"@)
    } else {
        let len = le(bytes.subrange(0, 2)) as int;
        if bytes.len() - 2 < len {
            Err("dict entry body truncated"@)
        } else {
            match dict_entries(bytes.skip(2 + len), (n - 1) as nat) {
                Err(m) => Err(m),
                Ok(rest) => Ok(seq![bytes.subrange(2, 2 + len)] + rest),
            }
        }
    }
}

/// The keys in an uncompressed key array, or why they cannot be read.
pub open spec fn dict_keys(raw: Seq<u8>, width: nat, count: nat) -> Result<Seq<u32>, Seq<char>> {
    if count == 0 {
        Ok(Seq::empty())
    } else if width != 1 && width != 2 && width != 4 {
        Err("unsupported key width "@ + decimal(width))
    } else if raw.len() < count * width {
        Err("dict keys truncated"@)
    } else {
        Ok(Seq::new(count, |i: int| le(raw.subrange(i * width, i * width + width)) as u32))
    }
}

/// What a page holds.
#[verifier::ext_equal]
pub ghost struct DictContent {
    pub dict: Seq<Seq<u8>>,
    pub keys: Seq<u32>,
}

impl DictContent {
    /// The row at `idx`, or why it cannot be read.
    pub open spec fn row(self, idx: int) -> Result<Seq<u8>, Seq<char>> {
        if idx >= self.keys.len() {
            Err("dict row idx out of range"@)
        } else if self.keys[idx] >= self.dict.len() {
            Err("dict key out of range"@)
        } else {
            Ok(self.dict[self.keys[idx] as int])
        }
    }
}

/// The keys' bytes that a block holds, or why it cannot be decompressed.
pub open spec fn key_bytes(block: Seq<u8>) -> Result<Seq<u8>, Seq<char>> {
    if !lz4_lengths_fit(block, 4) {
        Err("lz4 decompress: a length overflows"@)
    } else {
        match lz4_content(block) {
            Err(text) => Err("lz4 decompress: "@ + text),
            Ok(raw) => Ok(raw),
        }
    }
}

/// What a page holds, or why it cannot be read.
pub open spec fn dict_parse(input: Seq<u8>) -> Result<DictContent, Seq<char>> {
    if input.len() < 13 {
        Err("dict input too short"@)
    } else {
        let count = le(input.subrange(0, 4));
        let size = le(input.subrange(4, 8));
        let width = input[8] as nat;
        let bytes = le(input.subrange(9, 13)) as int;
        if input.len() - 13 < bytes + 4 {
            Err("dict bytes truncated"@)
        } else {
            match dict_entries(input.subrange(13, 13 + bytes), size) {
                Err(m) => Err(m),
                Ok(dict) => {
                    let len = le(input.subrange(13 + bytes, 17 + bytes)) as int;
                    if input.len() - (17 + bytes) < len {
                        Err("dict key block truncated"@)
                    } else {
                        match key_bytes(input.subrange(17 + bytes, 17 + bytes + len)) {
                            Err(m) => Err(m),
                            Ok(raw) => match dict_keys(raw, width, count) {
                                Err(m) => Err(m),
                                Ok(keys) => Ok(DictContent { dict, keys }),
                            },
                        }
                    }
                },
            }
        }
    }
}

/// Collects the rows of a page.
pub struct DictBuilder {
    dict: Interner,
    keys: Vec<usize>,
}

impl DictBuilder {
    /// The rows pushed so far.
    pub closed spec fn view(&self) -> Seq<Seq<u8>> {
        Seq::new(self.keys@.len(), |k: int| self.dict@[self.keys@[k] as int])
    }

    /// The distinct rows.
    pub closed spec fn values(&self) -> Seq<Seq<u8>> {
        self.dict@
    }

    #[verifier::type_invariant]
    spec fn inv(&self) -> bool {
        &&& distinct(self.dict@)
        &&& forall|k: int| 0 <= k < self.keys@.len() ==> #[trigger] self.keys@[k] < self.dict@.len()
        &&& forall|d: int| 0 <= d < self.dict@.len() ==> #[trigger] lists(self.keys@, d)
    }

    pub fn new() -> (r: Self)
        ensures
            r@ == Seq::<Seq<u8>>::empty(),
    {
        let r = DictBuilder { dict: Interner::new(), keys: Vec::new() };
        assert(r@ =~= Seq::empty());
        r
    }

    /// Appends a row.
    pub fn push(&mut self, value: &[u8])
        ensures
            final(self)@ == old(self)@.push(value@),
    {
        proof {
            use_type_invariant(&*self);
        }
        let ghost old_keys = self.keys@;
        let ghost old_dict = self.dict@;
        let ghost before = self@;
        let mut taken = DictBuilder::new();
        std::mem::swap(self, &mut taken);
        let DictBuilder { mut dict, mut keys } = taken;
        let (id, _fresh) = dict.find_or_add(value);
        keys.push(id);
        proof {
            assert forall|d: int| 0 <= d < dict@.len() implies #[trigger] lists(keys@, d) by {
                if d < old_dict.len() {
                    assert(lists(old_keys, d));
                    let k = choose|k: int| 0 <= k < old_keys.len() && #[trigger] old_keys[k] == d;
                    assert(keys@[k] == d);
                } else {
                    assert(keys@[old_keys.len() as int] == d);
                }
            }
        }
        *self = DictBuilder { dict, keys };
        assert(self@ =~= before.push(value@));
    }

    /// How many distinct rows were pushed.
    pub fn dict_size(&self) -> (r: usize)
        ensures
            r == self.values().len(),
            distinct(self.values()),
            forall|k: int| 0 <= k < self@.len() ==> self.values().contains(#[trigger] self@[k]),
            forall|d: int| 0 <= d < self.values().len() ==> self@.contains(#[trigger] self.values()[d]),
    {
        proof {
            use_type_invariant(self);
            assert forall|d: int| 0 <= d < self.values().len() implies self@.contains(
                #[trigger] self.values()[d],
            ) by {
                assert(lists(self.keys@, d));
                let k = choose|k: int| 0 <= k < self.keys@.len() && #[trigger] self.keys@[k] == d;
                assert(self@[k] == self.values()[d]);
            }
            assert forall|k: int| 0 <= k < self@.len() implies self.values().contains(
                #[trigger] self@[k],
            ) by {
                assert(self.values()[self.keys@[k] as int] == self@[k]);
            }
        }
        self.dict.len()
    }

    /// Encodes the page. Fails if a row is longer than a 16-bit length can say. Counts
    /// and lengths beyond 32 bits are cut to their low 32 bits, as the format's fields
    /// are.
    pub fn finish(self) -> (r: Result<Vec<u8>, ZenError>)
        ensures
            match r {
                Ok(bytes) => !has_long_row(self@) && is_dict_page(bytes@, self@),
                Err(e) => {
                    &&& e matches ZenError::Compress(m)
                    &&& exists|k: int|
                        #![trigger self@[k]]
                        {
                            &&& 0 <= k < self@.len()
                            &&& self@[k].len() > u16::MAX
                            &&& forall|j: int| 0 <= j < k ==> (#[trigger] self@[j]).len() <= u16::MAX
                            &&& m@ == "dict entry length "@ + decimal(self@[k].len())
                                + " exceeds u16"@
                        }
                },
            },
    {
        proof {
            use_type_invariant(&self);
        }
        let ghost rows = self@;
        let DictBuilder { dict, keys } = self;
        let mut c: usize = 0;
        while c < keys.len()
            invariant
                c <= keys@.len(),
                rows == Seq::new(keys@.len(), |k: int| dict@[keys@[k] as int]),
                rows == self@,
                forall|k: int| 0 <= k < keys@.len() ==> #[trigger] keys@[k] < dict@.len(),
                forall|j: int| 0 <= j < c ==> (#[trigger] rows[j]).len() <= u16::MAX,
            decreases keys.len() - c,
        {
            let entry: &Vec<u8> = dict.get(keys[c]);
            assert(entry@ == rows[c as int]);
            if entry.len() > 0xffff {
                let text: String = decimal_string(entry.len() as u64);
                return Err(
                    ZenError::Compress(
                        concat3("dict entry length ", text.as_str(), " exceeds u16"),
                    ),
                );
            }
            c = c + 1;
        }
        assert(!has_long_row(rows));
        let items: Vec<Vec<u8>> = dict.into_items();
        let order: Vec<usize> = sort_order(items.as_slice());
        let ghost found = byte_rows(items@);
        let ghost sorted = Seq::new(order@.len(), |i: int| found[order@[i] as int]);
        proof {
            lemma_sorted_dictionary(items@, order@, keys@, rows, sorted);
        }
        let rank: Vec<usize> = invert(&order);
        let n: usize = order.len();
        let width: u8 = if n <= 0x100 {
            1
        } else if n <= 0x1_0000 {
            2
        } else {
            4
        };
        let entries: Vec<u8> = write_entries(&items, &order, Ghost(sorted));
        let raw: Vec<u8> = write_keys(&keys, &rank, width, Ghost(sorted), Ghost(rows));
        let block: Vec<u8> = lz4_compress(raw.as_slice());
        let mut out: Vec<u8> = Vec::new();
        put_len32(&mut out, keys.len());
        put_len32(&mut out, n);
        put_u8(&mut out, width);
        put_len32(&mut out, entries.len());
        put_slice(&mut out, entries.as_slice());
        put_len32(&mut out, block.len());
        put_slice(&mut out, block.as_slice());
        assert(out@ =~= dict_page_bytes(sorted, rows.len(), block@));
        Ok(out)
    }
}

impl Default for DictBuilder {
    fn default() -> (r: Self)
        ensures
            r@ == Seq::<Seq<u8>>::empty(),
    {
        DictBuilder::new()
    }
}

/// The items in sorted order are the dictionary of the rows, and a row's key is the rank
/// of its item.
proof fn lemma_sorted_dictionary(
    items: Seq<Vec<u8>>,
    order: Seq<usize>,
    keys: Seq<usize>,
    rows: Seq<Seq<u8>>,
    sorted: Seq<Seq<u8>>,
)
    requires
        distinct(byte_rows(items)),
        is_stable_order(items, order),
        rows == Seq::new(keys.len(), |k: int| byte_rows(items)[keys[k] as int]),
        sorted == Seq::new(order.len(), |i: int| byte_rows(items)[order[i] as int]),
        forall|k: int| 0 <= k < keys.len() ==> #[trigger] keys[k] < items.len(),
        forall|d: int| 0 <= d < items.len() ==> #[trigger] lists(keys, d),
    ensures
        is_dictionary(sorted, rows),
        forall|k: int, i: int|
            0 <= k < keys.len() && 0 <= i < order.len() && #[trigger] order[i] == #[trigger] keys[k]
                ==> sorted.index_of(rows[k]) == i,
{
    let found = byte_rows(items);
    assert forall|i: int, j: int| 0 <= i < j < sorted.len() implies lex_lt(
        #[trigger] sorted[i],
        #[trigger] sorted[j],
    ) by {
        assert(stable_before(items, order[i] as int, order[j] as int));
        if lex_le(sorted[j], sorted[i]) {
            lemma_lex_antisymmetric(sorted[i], sorted[j]);
            assert(found[order[i] as int] == found[order[j] as int]);
            assert(order[i] < order[j]);
        }
    }
    assert forall|k: int| 0 <= k < rows.len() implies sorted.contains(#[trigger] rows[k]) by {
        assert(lists(order, keys[k] as int));
        let i = choose|i: int| 0 <= i < order.len() && #[trigger] order[i] == keys[k];
        assert(sorted[i] == rows[k]);
    }
    assert forall|i: int| 0 <= i < sorted.len() implies rows.contains(#[trigger] sorted[i]) by {
        let d = order[i] as int;
        assert(lists(keys, d));
        let k = choose|k: int| 0 <= k < keys.len() && #[trigger] keys[k] == d;
        assert(rows[k] == sorted[i]);
    }
    assert forall|k: int, i: int|
        0 <= k < keys.len() && 0 <= i < order.len() && #[trigger] order[i]
            == #[trigger] keys[k] implies sorted.index_of(rows[k]) == i by {
        assert(sorted[i] == rows[k]);
        let j = sorted.index_of(rows[k]);
        assert(0 <= j < sorted.len() && sorted[j] == rows[k]);
        if j < i {
            assert(lex_lt(sorted[j], sorted[i]));
        } else if i < j {
            assert(lex_lt(sorted[i], sorted[j]));
        }
    }
}

/// The inverse of a permutation: where each index stands.
fn invert(order: &Vec<usize>) -> (r: Vec<usize>)
    requires
        forall|i: int| 0 <= i < order@.len() ==> #[trigger] order@[i] < order@.len(),
        forall|k: int| 0 <= k < order@.len() ==> #[trigger] lists(order@, k),
        forall|i: int, j: int| 0 <= i < j < order@.len() ==> order@[i] != order@[j],
    ensures
        r@.len() == order@.len(),
        forall|i: int| 0 <= i < order@.len() ==> r@[#[trigger] order@[i] as int] == i,
{
    let mut rank: Vec<usize> = Vec::new();
    let mut f: usize = 0;
    while f < order.len()
        invariant
            f <= order@.len(),
            rank@.len() == f,
        decreases order.len() - f,
    {
        rank.push(0);
        f = f + 1;
    }
    let mut i: usize = 0;
    while i < order.len()
        invariant
            i <= order@.len(),
            rank@.len() == order@.len(),
            forall|k: int| 0 <= k < order@.len() ==> #[trigger] order@[k] < order@.len(),
            forall|a: int, b: int| 0 <= a < b < order@.len() ==> order@[a] != order@[b],
            forall|k: int| 0 <= k < i ==> rank@[#[trigger] order@[k] as int] == k,
        decreases order.len() - i,
    {
        let at: usize = order[i];
        rank.set(at, i);
        i = i + 1;
    }
    rank
}

fn write_entries(items: &Vec<Vec<u8>>, order: &Vec<usize>, Ghost(sorted): Ghost<Seq<Seq<u8>>>) -> (r:
    Vec<u8>)
    requires
        forall|i: int| 0 <= i < order@.len() ==> #[trigger] order@[i] < items@.len(),
        sorted == Seq::new(order@.len(), |i: int| byte_rows(items@)[order@[i] as int]),
        forall|i: int| 0 <= i < sorted.len() ==> (#[trigger] sorted[i]).len() <= u16::MAX,
    ensures
        r@ == flat(entry_parts(sorted)),
{
    let mut out: Vec<u8> = Vec::new();
    let ghost parts = entry_parts(sorted);
    let mut i: usize = 0;
    assert(parts.take(0) =~= Seq::empty());
    while i < order.len()
        invariant
            i <= order@.len(),
            forall|i: int| 0 <= i < order@.len() ==> #[trigger] order@[i] < items@.len(),
            sorted == Seq::new(order@.len(), |i: int| byte_rows(items@)[order@[i] as int]),
            forall|i: int| 0 <= i < sorted.len() ==> (#[trigger] sorted[i]).len() <= u16::MAX,
            parts == entry_parts(sorted),
            out@ == flat(parts.take(i as int)),
        decreases order.len() - i,
    {
        let entry: &Vec<u8> = &items[order[i]];
        let ghost before = out@;
        assert(entry@ == sorted[i as int]);
        put_u16(&mut out, entry.len() as u16);
        put_slice(&mut out, entry.as_slice());
        proof {
            lemma_flat_push(parts.take(i as int), parts[i as int]);
            assert(parts.take(i + 1) =~= parts.take(i as int).push(parts[i as int]));
            assert(out@ =~= before + parts[i as int]);
        }
        i = i + 1;
    }
    assert(parts.take(i as int) =~= parts);
    out
}

fn write_keys(
    keys: &Vec<usize>,
    rank: &Vec<usize>,
    width: u8,
    Ghost(sorted): Ghost<Seq<Seq<u8>>>,
    Ghost(rows): Ghost<Seq<Seq<u8>>>,
) -> (r: Vec<u8>)
    requires
        width == key_width(sorted.len()),
        rows.len() == keys@.len(),
        rank@.len() == sorted.len(),
        is_dictionary(sorted, rows),
        forall|k: int| 0 <= k < keys@.len() ==> #[trigger] keys@[k] < rank@.len(),
        forall|k: int|
            0 <= k < keys@.len() ==> rank@[#[trigger] keys@[k] as int] == sorted.index_of(rows[k]),
    ensures
        r@ == flat(key_parts(sorted, rows)),
{
    let mut out: Vec<u8> = Vec::new();
    let ghost parts = key_parts(sorted, rows);
    let mut i: usize = 0;
    assert(parts.take(0) =~= Seq::empty());
    while i < keys.len()
        invariant
            i <= keys@.len(),
            width == key_width(sorted.len()),
            rows.len() == keys@.len(),
            rank@.len() == sorted.len(),
            is_dictionary(sorted, rows),
            forall|k: int| 0 <= k < keys@.len() ==> #[trigger] keys@[k] < rank@.len(),
            forall|k: int|
                0 <= k < keys@.len() ==> rank@[#[trigger] keys@[k] as int] == sorted.index_of(rows[k]),
            parts == key_parts(sorted, rows),
            out@ == flat(parts.take(i as int)),
        decreases keys.len() - i,
    {
        let key: usize = rank[keys[i]];
        let ghost before = out@;
        proof {
            assert(sorted.contains(rows[i as int]));
            assert(0 <= sorted.index_of(rows[i as int]) < sorted.len());
            assert(parts[i as int] == le_bytes(key as nat, width as nat));
        }
        if width == 1 {
            put_u8(&mut out, key as u8);
        } else if width == 2 {
            put_u16(&mut out, key as u16);
        } else {
            put_len32(&mut out, key);
        }
        proof {
            lemma_flat_push(parts.take(i as int), parts[i as int]);
            assert(parts.take(i + 1) =~= parts.take(i as int).push(parts[i as int]));
            assert(out@ =~= before + parts[i as int]);
        }
        i = i + 1;
    }
    assert(parts.take(i as int) =~= parts);
    out
}

/// How many bytes 0xFF follow one another from `at` on.
fn run_at(block: &[u8], at: usize) -> (r: usize)
    requires
        at <= block@.len(),
    ensures
        r == lz4_run(block@, at as int),
        at + r <= block@.len(),
{
    let mut end: usize = at;
    while end < block.len() && block[end] == 0xff
        invariant
            at <= end <= block@.len(),
            lz4_run(block@, at as int) == end - at + lz4_run(block@, end as int),
        decreases block@.len() - end,
    {
        end = end + 1;
    }
    end - at
}

/// The sum of a run of `run` bytes 0xFF from `at` on and of the byte after it.
fn sum_at(block: &[u8], at: usize, run: usize) -> (r: u128)
    requires
        run == lz4_run(block@, at as int),
        at + run <= block@.len(),
    ensures
        r == lz4_sum(block@, at as int),
{
    let total: usize = block.len();
    let end: usize = at + run;
    let last: u128 = if end < total {
        block[end] as u128
    } else {
        0
    };
    255 * (run as u128) + last
}

/// Whether no length in a block overflows.
fn lengths_fit(block: &[u8]) -> (r: bool)
    ensures
        r == lz4_lengths_fit(block@, 4),
{
    let total: u128 = block.len() as u128;
    let mut at: usize = 4;
    while at < block.len()
        invariant
            total == block@.len(),
            lz4_lengths_fit(block@, 4) == lz4_lengths_fit(block@, at as int),
        decreases block@.len() - at,
    {
        let token: u8 = block[at];
        let mut offset: u128 = at as u128 + 1 + (token / 16) as u128;
        if token / 16 == 15 {
            let run: usize = run_at(block, at + 1);
            let sum: u128 = sum_at(block, at + 1, run);
            if sum > 0xffff_ffff {
                return false;
            }
            offset = offset + 1 + run as u128 + sum;
        }
        if offset + 2 > total {
            return true;
        }
        let mut next: u128 = offset + 2;
        if token % 16 == 15 {
            let run: usize = run_at(block, next as usize);
            if sum_at(block, next as usize, run) > 0xffff_ffff {
                return false;
            }
            next = next + 1 + run as u128;
        }
        if next >= total {
            return true;
        }
        at = next as usize;
    }
    true
}

/// The keys' bytes in a block.
fn read_block(block: &[u8]) -> (r: Result<Vec<u8>, ZenError>)
    ensures
        match key_bytes(block@) {
            Ok(raw) => r matches Ok(v) && v@ == raw,
            Err(msg) => r matches Err(ZenError::Compress(m)) && m@ == msg,
        },
{
    if !lengths_fit(block) {
        return Err(ZenError::compress("lz4 decompress: a length overflows"));
    }
    match lz4_decompress(block) {
        Ok(raw) => Ok(raw),
        Err(text) => Err(ZenError::Compress(concat2("lz4 decompress: ", text.as_str()))),
    }
}

/// A page taken apart for reading.
pub struct DictDecoder {
    pub row_count: usize,
    pub dict: Vec<Vec<u8>>,
    pub keys: Vec<u32>,
}

impl DictDecoder {
    pub open spec fn view(&self) -> DictContent {
        DictContent { dict: byte_rows(self.dict@), keys: self.keys@ }
    }

    /// There is one key per row.
    pub open spec fn wf(&self) -> bool {
        self.keys@.len() == self.row_count
    }

    /// Reads the dictionary and the keys of a page.
    pub fn open(input: &[u8]) -> (r: Result<Self, ZenError>)
        ensures
            match dict_parse(input@) {
                Ok(content) => r matches Ok(d) && d.wf() && d@ == content,
                Err(msg) => r matches Err(ZenError::Compress(m)) && m@ == msg,
            },
    {
        if input.len() < 13 {
            return Err(ZenError::compress("dict input too short"));
        }
        let count: u32 = get_u32(input, 0);
        let size: u32 = get_u32(input, 4);
        let width: u8 = input[8];
        let bytes: u32 = get_u32(input, 9);
        if ((input.len() - 13) as u64) < bytes as u64 + 4 {
            return Err(ZenError::compress("dict bytes truncated"));
        }
        let at: usize = 13 + bytes as usize;
        let dict: Vec<Vec<u8>> = match read_entries(slice_subrange(input, 13, at), size) {
            Ok(d) => d,
            Err(e) => return Err(e),
        };
        let len: u32 = get_u32(input, at);
        if ((input.len() - at - 4) as u64) < len as u64 {
            return Err(ZenError::compress("dict key block truncated"));
        }
        let block: &[u8] = slice_subrange(input, at + 4, at + 4 + len as usize);
        let raw: Vec<u8> = match read_block(block) {
            Ok(raw) => raw,
            Err(e) => return Err(e),
        };
        match read_keys(raw.as_slice(), width, count) {
            Ok(keys) => {
                let d = DictDecoder { row_count: count as usize, dict, keys };
                Ok(d)
            },
            Err(e) => Err(e),
        }
    }

    /// The row at `idx`.
    pub fn row(&self, idx: usize) -> (r: Result<&[u8], ZenError>)
        requires
            self.wf(),
        ensures
            match self@.row(idx as int) {
                Ok(row) => r matches Ok(v) && v@ == row,
                Err(msg) => r matches Err(ZenError::Compress(m)) && m@ == msg,
            },
    {
        if idx >= self.row_count {
            return Err(ZenError::compress("dict row idx out of range"));
        }
        let key: u32 = self.keys[idx];
        if key as u64 >= self.dict.len() as u64 {
            return Err(ZenError::compress("dict key out of range"));
        }
        Ok(self.dict[key as usize].as_slice())
    }

    /// All rows in order.
    pub fn iter_rows(&self) -> (r: Vec<&[u8]>)
        requires
            forall|k: int| 0 <= k < self.keys@.len() ==> #[trigger] self.keys@[k] < self.dict@.len(),
        ensures
            slice_rows(r@) == Seq::new(
                self.keys@.len(),
                |k: int| self@.dict[self.keys@[k] as int],
            ),
    {
        let mut out: Vec<&[u8]> = Vec::new();
        let mut i: usize = 0;
        while i < self.keys.len()
            invariant
                i <= self.keys@.len(),
                forall|k: int|
                    0 <= k < self.keys@.len() ==> #[trigger] self.keys@[k] < self.dict@.len(),
                out@.len() == i,
                forall|k: int| 0 <= k < i ==> (#[trigger] out@[k])@ == self.dict@[self.keys@[k] as int]@,
            decreases self.keys.len() - i,
        {
            out.push(self.dict[self.keys[i] as usize].as_slice());
            i = i + 1;
        }
        assert(slice_rows(out@) =~= Seq::new(
            self.keys@.len(),
            |k: int| self@.dict[self.keys@[k] as int],
        ));
        out
    }
}

fn read_entries(bytes: &[u8], n: u32) -> (r: Result<Vec<Vec<u8>>, ZenError>)
    ensures
        match dict_entries(bytes@, n as nat) {
            Ok(dict) => r matches Ok(v) && byte_rows(v@) == dict,
            Err(msg) => r matches Err(ZenError::Compress(m)) && m@ == msg,
        },
{
    let mut out: Vec<Vec<u8>> = Vec::new();
    let mut pos: usize = 0;
    let mut i: u32 = 0;
    let ghost whole = dict_entries(bytes@, n as nat);
    proof {
        assert(bytes@.skip(0) =~= bytes@);
        assert(byte_rows(out@) =~= Seq::empty());
        if let Ok(all) = whole {
            assert(Seq::<Seq<u8>>::empty() + all =~= all);
        }
    }
    while i < n
        invariant
            i <= n,
            pos <= bytes.len(),
            whole == dict_entries(bytes@, n as nat),
            match dict_entries(bytes@.skip(pos as int), (n - i) as nat) {
                Ok(rest) => whole == Ok::<Seq<Seq<u8>>, Seq<char>>(byte_rows(out@) + rest),
                Err(m) => whole == Err::<Seq<Seq<u8>>, Seq<char>>(m),
            },
        decreases n - i,
    {
        let ghost here = bytes@.skip(pos as int);
        let ghost before = byte_rows(out@);
        if bytes.len() - pos < 2 {
            return Err(ZenError::compress("dict entry truncated"));
        }
        let len: usize = get_u16(bytes, pos) as usize;
        assert(here.subrange(0, 2) =~= bytes@.subrange(pos as int, pos + 2));
        if bytes.len() - pos - 2 < len {
            return Err(ZenError::compress("dict entry body truncated"));
        }
        let entry: Vec<u8> = copy_bytes(slice_subrange(bytes, pos + 2, pos + 2 + len));
        let ghost content = entry@;
        out.push(entry);
        proof {
            assert(here.subrange(2, 2 + len) =~= content);
            assert(here.skip(2 + len) =~= bytes@.skip(pos + 2 + len));
            assert(byte_rows(out@) =~= before.push(content));
            if let Ok(rest) = dict_entries(here.skip(2 + len), (n - i - 1) as nat) {
                assert(before + (seq![content] + rest) =~= before.push(content) + rest);
            }
        }
        pos = pos + 2 + len;
        i = i + 1;
    }
    assert(byte_rows(out@) + Seq::<Seq<u8>>::empty() =~= byte_rows(out@));
    Ok(out)
}

fn read_keys(raw: &[u8], width: u8, count: u32) -> (r: Result<Vec<u32>, ZenError>)
    ensures
        match dict_keys(raw@, width as nat, count as nat) {
            Ok(keys) => r matches Ok(v) && v@ == keys,
            Err(msg) => r matches Err(ZenError::Compress(m)) && m@ == msg,
        },
{
    let mut out: Vec<u32> = Vec::new();
    if count == 0 {
        assert(out@ =~= Seq::empty());
        return Ok(out);
    }
    if width != 1 && width != 2 && width != 4 {
        let text: String = decimal_string(width as u64);
        return Err(ZenError::Compress(concat2("unsupported key width ", text.as_str())));
    }
    assert(count * width <= 0x1_0000_0000 * 4) by (nonlinear_arith)
        requires
            count < 0x1_0000_0000,
            width <= 4,
    ;
    if (raw.len() as u64) < count as u64 * width as u64 {
        return Err(ZenError::compress("dict keys truncated"));
    }
    let ghost keys = dict_keys(raw@, width as nat, count as nat)->Ok_0;
    let mut i: u32 = 0;
    let mut pos: usize = 0;
    while i < count
        invariant
            i <= count,
            width == 1 || width == 2 || width == 4,
            pos == i * width,
            count * width <= raw.len(),
            keys == Seq::new(
                count as nat,
                |i: int| le(raw@.subrange(i * width as nat, i * width as nat + width as nat)) as u32,
            ),
            out@ == keys.take(i as int),
        decreases count - i,
    {
        let key: u32 = if width == 1 {
            proof {
                reveal_with_fuel(le, 2);
                assert(raw@.subrange(pos as int, pos + 1).drop_first() =~= Seq::empty());
            }
            raw[pos] as u32
        } else if width == 2 {
            get_u16(raw, pos) as u32
        } else {
            get_u32(raw, pos)
        };
        assert(key == keys[i as int]);
        out.push(key);
        i = i + 1;
        pos = pos + width as usize;
        assert(out@ =~= keys.take(i as int));
    }
    assert(keys.take(count as int) =~= keys);
    Ok(out)
}

/// Entries that fit read back as they were written.
proof fn lemma_entries_back(dict: Seq<Seq<u8>>)
    requires
        forall|i: int| 0 <= i < dict.len() ==> (#[trigger] dict[i]).len() <= u16::MAX,
    ensures
        dict_entries(flat(entry_parts(dict)), dict.len()) == Ok::<Seq<Seq<u8>>, Seq<char>>(dict),
    decreases dict.len(),
{
    let parts = entry_parts(dict);
    let bytes = flat(parts);
    if dict.len() == 0 {
        assert(dict =~= Seq::empty());
    } else {
        let rest = dict.drop_first();
        assert forall|i: int| 0 <= i < rest.len() implies (#[trigger] rest[i]).len() <= u16::MAX by {
            assert(rest[i] == dict[i + 1]);
        }
        lemma_entries_back(rest);
        lemma_flat_first(parts);
        assert(parts.drop_first() =~= entry_parts(rest));
        let e = dict[0];
        lemma_pow256_values();
        lemma_le_of_le_bytes(e.len(), 2);
        assert(bytes.subrange(0, 2) =~= le_bytes(e.len(), 2));
        assert(bytes.subrange(2, 2 + e.len() as int) =~= e);
        assert(bytes.skip(2 + e.len() as int) =~= flat(entry_parts(rest)));
        assert(seq![e] + rest =~= dict);
    }
}

proof fn lemma_entries_size(dict: Seq<Seq<u8>>)
    ensures
        flat(entry_parts(dict)).len() >= 2 * dict.len(),
    decreases dict.len(),
{
    if dict.len() > 0 {
        let parts = entry_parts(dict);
        lemma_entries_size(dict.drop_last());
        assert(parts.drop_last() =~= entry_parts(dict.drop_last()));
        lemma_le_bytes_len(dict.last().len(), 2);
    }
}

/// Opening an encoded page gives back every row. Rows have to fit the 16-bit entry
/// length, and the counts and lengths of the page their 32-bit fields.
pub proof fn dict_round_trip(
    rows: Seq<Seq<u8>>,
    dict: Seq<Seq<u8>>,
    block: Seq<u8>,
    bytes: Seq<u8>,
)
    requires
        !has_long_row(rows),
        is_dictionary(dict, rows),
        lz4_holds(block, flat(key_parts(dict, rows))),
        bytes == dict_page_bytes(dict, rows.len(), block),
        rows.len() <= u32::MAX,
        flat(entry_parts(dict)).len() <= u32::MAX,
        flat(key_parts(dict, rows)).len() <= u32::MAX,
        block.len() <= u32::MAX,
    ensures
        dict_parse(bytes) matches Ok(content) && content.dict == dict && content.keys.len()
            == rows.len() && forall|i: int|
            0 <= i < rows.len() ==> #[trigger] content.row(i) == Ok::<Seq<u8>, Seq<char>>(rows[i]),
{
    let parts = entry_parts(dict);
    let entries = flat(parts);
    let keys = key_parts(dict, rows);
    let raw = flat(keys);
    let w = key_width(dict.len());
    let b = entries.len() as int;
    lemma_entries_size(dict);
    assert forall|i: int| 0 <= i < dict.len() implies (#[trigger] dict[i]).len() <= u16::MAX by {
        assert(rows.contains(dict[i]));
        let k = choose|k: int| 0 <= k < rows.len() && rows[k] == dict[i];
        assert(rows[k].len() <= u16::MAX);
    }
    lemma_entries_back(dict);
    lemma_u32_round_trip(rows.len());
    lemma_u32_round_trip(dict.len());
    lemma_u32_round_trip(entries.len());
    lemma_u32_round_trip(block.len());
    lemma_pow256_values();
    lemma_le_of_le_bytes(w, 1);
    assert(bytes.subrange(0, 4) =~= le_bytes(rows.len(), 4));
    assert(bytes.subrange(4, 8) =~= le_bytes(dict.len(), 4));
    assert(bytes.subrange(8, 9) =~= le_bytes(w, 1));
    assert(bytes[8] == w) by {
        reveal_with_fuel(le, 2);
        assert(bytes.subrange(8, 9)[0] == bytes[8]);
    }
    assert(bytes.subrange(9, 13) =~= le_bytes(entries.len(), 4));
    assert(bytes.subrange(13, 13 + b) =~= entries);
    assert(bytes.subrange(13 + b, 17 + b) =~= le_bytes(block.len(), 4));
    assert(bytes.subrange(17 + b, 17 + b + block.len() as int) =~= block);
    assert(uniform(keys, w)) by {
        assert forall|k: int| 0 <= k < keys.len() implies (#[trigger] keys[k]).len() == w by {
            lemma_le_bytes_len(dict.index_of(rows[k]) as nat, w);
        }
    }
    lemma_flat_uniform_len(keys, w);
    let read = dict_keys(raw, w, rows.len());
    assert(read is Ok);
    let got = read->Ok_0;
    assert forall|k: int| 0 <= k < rows.len() implies got[k] == dict.index_of(rows[k]) && 0
        <= dict.index_of(rows[k]) < dict.len() && dict[dict.index_of(rows[k])] == rows[k] by {
        assert(dict.contains(rows[k]));
        let at = dict.index_of(rows[k]);
        assert(0 <= at < dict.len() && dict[at] == rows[k]);
        lemma_flat_uniform_at(keys, w, k);
        lemma_le_of_le_bytes(at as nat, w);
    }
    let content = dict_parse(bytes)->Ok_0;
    assert(content.keys == got);
    assert forall|i: int| 0 <= i < rows.len() implies #[trigger] content.row(i) == Ok::<
        Seq<u8>,
        Seq<char>,
    >(rows[i]) by {
        assert(got[i] == dict.index_of(rows[i]));
    }
}

/// The dictionary, the keys and the block of a page of the rows have 32-bit lengths.
pub open spec fn dict_lengths_fit(bytes: Seq<u8>, rows: Seq<Seq<u8>>) -> bool {
    forall|dict: Seq<Seq<u8>>| #[trigger]
        is_dictionary(dict, rows) ==> {
            &&& flat(entry_parts(dict)).len() <= u32::MAX
            &&& flat(key_parts(dict, rows)).len() <= u32::MAX
            &&& bytes.len() <= u32::MAX + 17 + flat(entry_parts(dict)).len()
        }
}

/// Opening a page gives back the dictionary and every row of the rows that it was made of,
/// where the counts and lengths fit their 32-bit fields.
pub proof fn finished_pages_open(bytes: Seq<u8>, rows: Seq<Seq<u8>>)
    requires
        is_dict_page(bytes, rows),
        !has_long_row(rows),
        rows.len() <= u32::MAX,
        dict_lengths_fit(bytes, rows),
    ensures
        dict_parse(bytes) matches Ok(content) && is_dictionary(content.dict, rows)
            && content.keys.len() == rows.len() && forall|i: int|
            0 <= i < rows.len() ==> #[trigger] content.row(i) == Ok::<Seq<u8>, Seq<char>>(rows[i]),
{
    let (dict, block) = choose|dict: Seq<Seq<u8>>, block: Seq<u8>|
        #![trigger dict_page_bytes(dict, rows.len(), block)]
        is_dictionary(dict, rows) && lz4_holds(block, flat(key_parts(dict, rows))) && bytes
            == dict_page_bytes(dict, rows.len(), block);
    lemma_le_bytes_len(rows.len(), 4);
    lemma_le_bytes_len(dict.len(), 4);
    lemma_le_bytes_len(key_width(dict.len()), 1);
    lemma_le_bytes_len(flat(entry_parts(dict)).len(), 4);
    lemma_le_bytes_len(block.len(), 4);
    dict_round_trip(rows, dict, block, bytes);
}

/// A list of rows has one dictionary only.
pub proof fn dictionary_unique(a: Seq<Seq<u8>>, b: Seq<Seq<u8>>, rows: Seq<Seq<u8>>)
    requires
        is_dictionary(a, rows),
        is_dictionary(b, rows),
    ensures
        a == b,
{
    lemma_dictionary_prefix(a, b, rows, a.len() as int);
    lemma_dictionary_prefix(b, a, rows, b.len() as int);
    assert(a =~= b);
}

proof fn lemma_same_values(a: Seq<Seq<u8>>, b: Seq<Seq<u8>>, rows: Seq<Seq<u8>>, i: int)
    requires
        is_dictionary(a, rows),
        is_dictionary(b, rows),
        0 <= i < a.len(),
    ensures
        b.contains(a[i]),
{
    assert(rows.contains(a[i]));
    let k = choose|k: int| 0 <= k < rows.len() && rows[k] == a[i];
    assert(b.contains(rows[k]));
}

proof fn lemma_dictionary_prefix(a: Seq<Seq<u8>>, b: Seq<Seq<u8>>, rows: Seq<Seq<u8>>, n: int)
    requires
        is_dictionary(a, rows),
        is_dictionary(b, rows),
        0 <= n <= a.len(),
    ensures
        n <= b.len(),
        forall|i: int| 0 <= i < n ==> a[i] == b[i],
    decreases n,
{
    if n > 0 {
        let i = n - 1;
        lemma_dictionary_prefix(a, b, rows, i);
        lemma_same_values(a, b, rows, i);
        let j = choose|j: int| 0 <= j < b.len() && b[j] == a[i];
        if j < i {
            assert(lex_lt(a[j], a[i]));
        } else if j > i {
            lemma_same_values(b, a, rows, i);
            let k = choose|k: int| 0 <= k < a.len() && a[k] == b[i];
            assert(lex_lt(b[i], b[j]));
            if k < i {
                assert(lex_lt(b[k], b[i]));
            } else if k > i {
                assert(lex_lt(a[i], a[k]));
            }
        }
    }
}

} // verus!
