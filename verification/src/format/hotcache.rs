//! "Hotcache": a single contiguous block at a known offset in the segment that holds
//! what a reader needs to plan a query without reading the row groups: zone maps and the
//! places of posting lists, full-text, JSON-path and vector indexes.
use crate::cursor::{
    lemma_take_opt, lemma_take_uint, opt_nat32, opt_nat64, opt_num_bytes, put_len64, put_opt_u32,
    put_opt_u64, take_opt, take_uint, Cursor,
};
use crate::format::row_group::{header_round_trip, take_header, HeaderView, RowGroupHeader};
use crate::format::zone_map::{take_zone_map, zone_map_round_trip, ZoneMap, ZoneView};
use crate::wire::{le_bytes, lemma_pow256_values, put_u32};
use vstd::prelude::*;

verus! {

#[derive(Clone, Debug, PartialEq)]
pub struct ColumnHotcacheEntry {
    pub column_idx: u32,
    pub zone_map: ZoneMap,
    /// Absolute offset (within the segment) of the posting list blob, if any.
    pub posting_offset: Option<u64>,
    pub posting_length: Option<u32>,
    /// Absolute offset of the full-text index blob, if any.
    pub fts_offset: Option<u64>,
    pub fts_length: Option<u32>,
    /// Absolute offset of the JSON-path posting blob, if any.
    pub jsonpath_offset: Option<u64>,
    pub jsonpath_length: Option<u32>,
    /// Absolute offset of the HNSW graph blob, if any.
    pub hnsw_offset: Option<u64>,
    pub hnsw_length: Option<u32>,
}

/// The content of a column entry.
#[verifier::ext_equal]
pub ghost struct ColumnEntryView {
    pub column_idx: u32,
    pub zone_map: ZoneView,
    pub posting: (Option<u64>, Option<u32>),
    pub fts: (Option<u64>, Option<u32>),
    pub jsonpath: (Option<u64>, Option<u32>),
    pub hnsw: (Option<u64>, Option<u32>),
}

/// An optional place in written form.
pub open spec fn place_bytes(p: (Option<u64>, Option<u32>)) -> Seq<u8> {
    opt_num_bytes(opt_nat64(p.0), 8) + opt_num_bytes(opt_nat32(p.1), 4)
}

/// An optional 64-bit number of a value that was read.
pub open spec fn opt_u64_of(o: Option<nat>) -> Option<u64> {
    match o {
        Some(v) => Some(v as u64),
        None => None,
    }
}

/// An optional 32-bit number of a value that was read.
pub open spec fn opt_u32_of(o: Option<nat>) -> Option<u32> {
    match o {
        Some(v) => Some(v as u32),
        None => None,
    }
}

/// An optional place off the front.
pub open spec fn take_place(s: Seq<u8>) -> Option<((Option<u64>, Option<u32>), Seq<u8>)> {
    match take_opt(s, 8) {
        None => None,
        Some((a, s)) => match take_opt(s, 4) {
            None => None,
            Some((b, s)) => Some(((opt_u64_of(a), opt_u32_of(b)), s)),
        },
    }
}

proof fn lemma_take_place(p: (Option<u64>, Option<u32>), rest: Seq<u8>)
    ensures
        take_place(place_bytes(p) + rest) == Some((p, rest)),
{
    lemma_pow256_values();
    let b = opt_num_bytes(opt_nat32(p.1), 4);
    lemma_take_opt(opt_nat64(p.0), 8, b + rest);
    lemma_take_opt(opt_nat32(p.1), 4, rest);
    assert(place_bytes(p) + rest =~= opt_num_bytes(opt_nat64(p.0), 8) + (b + rest));
}

fn put_place(out: &mut Vec<u8>, offset: Option<u64>, length: Option<u32>)
    ensures
        final(out)@ == old(out)@ + place_bytes((offset, length)),
{
    let ghost before = out@;
    put_opt_u64(out, offset);
    put_opt_u32(out, length);
    assert(out@ =~= before + place_bytes((offset, length)));
}

fn read_place(c: &mut Cursor<'_>) -> (r: Option<(Option<u64>, Option<u32>)>)
    requires
        old(c).wf(),
    ensures
        final(c).wf(),
        match take_place(old(c)@) {
            Some((p, rest)) => r == Some(p) && final(c)@ == rest,
            None => r is None,
        },
{
    let a: Option<u64> = match c.take_opt_u64() {
        Some(v) => v,
        None => return None,
    };
    let b: Option<u32> = match c.take_opt_u32() {
        Some(v) => v,
        None => return None,
    };
    Some((a, b))
}

impl ColumnEntryView {
    /// The entry in written form.
    #[verifier::opaque]
    pub open spec fn bytes(self) -> Seq<u8> {
        le_bytes(self.column_idx as nat, 4) + (self.zone_map.bytes() + (place_bytes(self.posting)
            + (place_bytes(self.fts) + (place_bytes(self.jsonpath) + place_bytes(self.hnsw)))))
    }
}

/// A column entry off the front.
#[verifier::opaque]
pub open spec fn take_column_entry(s: Seq<u8>) -> Option<(ColumnEntryView, Seq<u8>)> {
    match take_uint(s, 4) {
        None => None,
        Some((i, s)) => match take_zone_map(s) {
            None => None,
            Some((zone_map, s)) => match take_place(s) {
                None => None,
                Some((posting, s)) => match take_place(s) {
                    None => None,
                    Some((fts, s)) => match take_place(s) {
                        None => None,
                        Some((jsonpath, s)) => match take_place(s) {
                            None => None,
                            Some((hnsw, s)) => Some(
                                (
                                    ColumnEntryView {
                                        column_idx: i as u32,
                                        zone_map,
                                        posting,
                                        fts,
                                        jsonpath,
                                        hnsw,
                                    },
                                    s,
                                ),
                            ),
                        },
                    },
                },
            },
        },
    }
}

proof fn lemma_take_column_entry(e: ColumnEntryView, rest: Seq<u8>)
    requires
        e.zone_map.fits(),
    ensures
        take_column_entry(e.bytes() + rest) == Some((e, rest)),
{
    reveal(ColumnEntryView::bytes);
    reveal(take_column_entry);
    lemma_pow256_values();
    let s4 = place_bytes(e.hnsw) + rest;
    let s3 = place_bytes(e.jsonpath) + s4;
    let s2 = place_bytes(e.fts) + s3;
    let s1 = place_bytes(e.posting) + s2;
    let s0 = e.zone_map.bytes() + s1;
    assert(e.bytes() + rest =~= le_bytes(e.column_idx as nat, 4) + s0);
    lemma_take_uint(e.column_idx as nat, 4, s0);
    zone_map_round_trip(e.zone_map, s1);
    lemma_take_place(e.posting, s2);
    lemma_take_place(e.fts, s3);
    lemma_take_place(e.jsonpath, s4);
    lemma_take_place(e.hnsw, rest);
}

impl ColumnHotcacheEntry {
    pub open spec fn view(&self) -> ColumnEntryView {
        ColumnEntryView {
            column_idx: self.column_idx,
            zone_map: self.zone_map@,
            posting: (self.posting_offset, self.posting_length),
            fts: (self.fts_offset, self.fts_length),
            jsonpath: (self.jsonpath_offset, self.jsonpath_length),
            hnsw: (self.hnsw_offset, self.hnsw_length),
        }
    }

    fn write(&self, out: &mut Vec<u8>)
        ensures
            final(out)@ == old(out)@ + self@.bytes(),
    {
        let ghost before = out@;
        proof {
            reveal(ColumnEntryView::bytes);
        }
        put_u32(out, self.column_idx);
        self.zone_map.write(out);
        put_place(out, self.posting_offset, self.posting_length);
        put_place(out, self.fts_offset, self.fts_length);
        put_place(out, self.jsonpath_offset, self.jsonpath_length);
        put_place(out, self.hnsw_offset, self.hnsw_length);
        assert(out@ =~= before + self@.bytes());
    }

    fn read(c: &mut Cursor<'_>) -> (r: Option<Self>)
        requires
            old(c).wf(),
        ensures
            final(c).wf(),
            match take_column_entry(old(c)@) {
                Some((e, rest)) => r matches Some(x) && x@ == e && final(c)@ == rest,
                None => r is None,
            },
    {
        proof {
            reveal(take_column_entry);
        }
        let column_idx: u32 = match c.take_u32() {
            Some(v) => v,
            None => return None,
        };
        let zone_map: ZoneMap = match ZoneMap::read(c) {
            Some(v) => v,
            None => return None,
        };
        let (posting_offset, posting_length) = match read_place(c) {
            Some(v) => v,
            None => return None,
        };
        let (fts_offset, fts_length) = match read_place(c) {
            Some(v) => v,
            None => return None,
        };
        let (jsonpath_offset, jsonpath_length) = match read_place(c) {
            Some(v) => v,
            None => return None,
        };
        let (hnsw_offset, hnsw_length) = match read_place(c) {
            Some(v) => v,
            None => return None,
        };
        Some(
            ColumnHotcacheEntry {
                column_idx,
                zone_map,
                posting_offset,
                posting_length,
                fts_offset,
                fts_length,
                jsonpath_offset,
                jsonpath_length,
                hnsw_offset,
                hnsw_length,
            },
        )
    }
}

/// The contents of column entries.
pub open spec fn column_entries(v: Seq<ColumnHotcacheEntry>) -> Seq<ColumnEntryView> {
    Seq::new(v.len(), |i: int| v[i]@)
}

/// Column entries in written form.
pub open spec fn column_entries_bytes(es: Seq<ColumnEntryView>) -> Seq<u8>
    decreases es.len(),
{
    if es.len() == 0 {
        Seq::empty()
    } else {
        es[0].bytes() + column_entries_bytes(es.drop_first())
    }
}

/// `n` column entries off the front.
pub open spec fn take_column_entries(s: Seq<u8>, n: nat) -> Option<
    (Seq<ColumnEntryView>, Seq<u8>),
>
    decreases n,
{
    if n == 0 {
        Some((Seq::empty(), s))
    } else {
        match take_column_entry(s) {
            None => None,
            Some((e, rest)) => match take_column_entries(rest, (n - 1) as nat) {
                None => None,
                Some((es, end)) => Some((seq![e] + es, end)),
            },
        }
    }
}

/// Every bound of the entries fits its count.
pub open spec fn column_entries_fit(es: Seq<ColumnEntryView>) -> bool {
    forall|i: int| 0 <= i < es.len() ==> (#[trigger] es[i]).zone_map.fits()
}

proof fn lemma_take_column_entries(es: Seq<ColumnEntryView>, rest: Seq<u8>)
    requires
        column_entries_fit(es),
    ensures
        take_column_entries(column_entries_bytes(es) + rest, es.len()) == Some((es, rest)),
    decreases es.len(),
{
    if es.len() == 0 {
        assert(column_entries_bytes(es) + rest =~= rest);
        assert(es =~= Seq::empty());
    } else {
        let tail = es.drop_first();
        assert(column_entries_fit(tail)) by {
            assert forall|i: int| 0 <= i < tail.len() implies (
            #[trigger] tail[i]).zone_map.fits() by {
                assert(tail[i] == es[i + 1]);
            }
        }
        assert(es[0].zone_map.fits());
        lemma_take_column_entries(tail, rest);
        lemma_take_column_entry(es[0], column_entries_bytes(tail) + rest);
        assert(column_entries_bytes(es) + rest =~= es[0].bytes() + (column_entries_bytes(tail)
            + rest));
        assert(seq![es[0]] + tail =~= es);
    }
}

#[derive(Clone, Debug, PartialEq)]
pub struct RowGroupHotcacheEntry {
    pub row_group_idx: u32,
    pub header: RowGroupHeader,
    pub columns: Vec<ColumnHotcacheEntry>,
}

/// The content of a row-group entry.
#[verifier::ext_equal]
pub ghost struct GroupEntryView {
    pub row_group_idx: u32,
    pub header: HeaderView,
    pub columns: Seq<ColumnEntryView>,
}

impl GroupEntryView {
    /// The entry in written form.
    #[verifier::opaque]
    pub open spec fn bytes(self) -> Seq<u8> {
        le_bytes(self.row_group_idx as nat, 4) + (self.header.bytes() + (le_bytes(
            self.columns.len(),
            8,
        ) + column_entries_bytes(self.columns)))
    }

    /// Everything fits its counts.
    pub open spec fn fits(self) -> bool {
        &&& self.header.columns.len() <= u64::MAX
        &&& self.columns.len() <= u64::MAX
        &&& column_entries_fit(self.columns)
    }
}

/// A row-group entry off the front.
#[verifier::opaque]
pub open spec fn take_group_entry(s: Seq<u8>) -> Option<(GroupEntryView, Seq<u8>)> {
    match take_uint(s, 4) {
        None => None,
        Some((i, s)) => match take_header(s) {
            None => None,
            Some((header, s)) => match take_uint(s, 8) {
                None => None,
                Some((n, s)) => match take_column_entries(s, n) {
                    None => None,
                    Some((columns, s)) => Some(
                        (GroupEntryView { row_group_idx: i as u32, header, columns }, s),
                    ),
                },
            },
        },
    }
}

proof fn lemma_take_group_entry(e: GroupEntryView, rest: Seq<u8>)
    requires
        e.fits(),
    ensures
        take_group_entry(e.bytes() + rest) == Some((e, rest)),
{
    reveal(GroupEntryView::bytes);
    reveal(take_group_entry);
    lemma_pow256_values();
    let s2 = column_entries_bytes(e.columns) + rest;
    let s1 = le_bytes(e.columns.len(), 8) + s2;
    let s0 = e.header.bytes() + s1;
    assert(e.bytes() + rest =~= le_bytes(e.row_group_idx as nat, 4) + s0);
    lemma_take_uint(e.row_group_idx as nat, 4, s0);
    header_round_trip(e.header, s1);
    lemma_take_uint(e.columns.len(), 8, s2);
    lemma_take_column_entries(e.columns, rest);
}

impl RowGroupHotcacheEntry {
    pub open spec fn view(&self) -> GroupEntryView {
        GroupEntryView {
            row_group_idx: self.row_group_idx,
            header: self.header@,
            columns: column_entries(self.columns@),
        }
    }

    fn write(&self, out: &mut Vec<u8>)
        ensures
            final(out)@ == old(out)@ + self@.bytes(),
    {
        let ghost before = out@;
        proof {
            reveal(GroupEntryView::bytes);
        }
        put_u32(out, self.row_group_idx);
        self.header.write(out);
        put_len64(out, self.columns.len());
        let ghost head = out@;
        let ghost all = column_entries(self.columns@);
        let mut i: usize = 0;
        assert(all.skip(0) =~= all);
        while i < self.columns.len()
            invariant
                i <= self.columns@.len(),
                all == column_entries(self.columns@),
                out@ + column_entries_bytes(all.skip(i as int)) == head + column_entries_bytes(all),
            decreases self.columns.len() - i,
        {
            let ghost mid = out@;
            self.columns[i].write(out);
            proof {
                let here = all.skip(i as int);
                assert(here.drop_first() =~= all.skip(i + 1));
                assert(mid + (here[0].bytes() + column_entries_bytes(all.skip(i + 1))) =~= out@
                    + column_entries_bytes(all.skip(i + 1)));
            }
            i = i + 1;
        }
        assert(all.skip(i as int) =~= Seq::empty());
        assert(out@ + Seq::<u8>::empty() =~= out@);
        assert(out@ =~= before + self@.bytes());
    }

    fn read(c: &mut Cursor<'_>) -> (r: Option<Self>)
        requires
            old(c).wf(),
        ensures
            final(c).wf(),
            match take_group_entry(old(c)@) {
                Some((e, rest)) => r matches Some(x) && x@ == e && final(c)@ == rest,
                None => r is None,
            },
    {
        proof {
            reveal(take_group_entry);
        }
        let ghost whole = take_group_entry(c@);
        let row_group_idx: u32 = match c.take_u32() {
            Some(v) => v,
            None => return None,
        };
        let header: RowGroupHeader = match RowGroupHeader::read(c) {
            Some(v) => v,
            None => return None,
        };
        let n: u64 = match c.take_u64() {
            Some(v) => v,
            None => return None,
        };
        let mut columns: Vec<ColumnHotcacheEntry> = Vec::new();
        let ghost listed = take_column_entries(c@, n as nat);
        let mut i: u64 = 0;
        proof {
            assert(column_entries(columns@) =~= Seq::empty());
            if let Some((all, end)) = listed {
                assert(Seq::<ColumnEntryView>::empty() + all =~= all);
            }
        }
        while i < n
            invariant
                c.wf(),
                i <= n,
                whole == take_group_entry(old(c)@),
                whole == (match listed {
                    None => None,
                    Some((columns, end)) => Some(
                        (GroupEntryView { row_group_idx, header: header@, columns }, end),
                    ),
                }),
                match take_column_entries(c@, (n - i) as nat) {
                    Some((es, end)) => listed == Some((column_entries(columns@) + es, end)),
                    None => listed is None,
                },
            decreases n - i,
        {
            let ghost before = column_entries(columns@);
            match ColumnHotcacheEntry::read(c) {
                Some(e) => {
                    let ghost content = e@;
                    columns.push(e);
                    proof {
                        assert(column_entries(columns@) =~= before.push(content));
                        if let Some((es, end)) = take_column_entries(c@, (n - i - 1) as nat) {
                            assert(before + (seq![content] + es) =~= before.push(content) + es);
                        }
                    }
                },
                None => return None,
            }
            i = i + 1;
        }
        assert(column_entries(columns@) + Seq::<ColumnEntryView>::empty() =~= column_entries(
            columns@,
        ));
        Some(RowGroupHotcacheEntry { row_group_idx, header, columns })
    }
}

/// The contents of row-group entries.
pub open spec fn group_entries(v: Seq<RowGroupHotcacheEntry>) -> Seq<GroupEntryView> {
    Seq::new(v.len(), |i: int| v[i]@)
}

/// Row-group entries in written form.
pub open spec fn group_entries_bytes(es: Seq<GroupEntryView>) -> Seq<u8>
    decreases es.len(),
{
    if es.len() == 0 {
        Seq::empty()
    } else {
        es[0].bytes() + group_entries_bytes(es.drop_first())
    }
}

/// `n` row-group entries off the front.
pub open spec fn take_group_entries(s: Seq<u8>, n: nat) -> Option<(Seq<GroupEntryView>, Seq<u8>)>
    decreases n,
{
    if n == 0 {
        Some((Seq::empty(), s))
    } else {
        match take_group_entry(s) {
            None => None,
            Some((e, rest)) => match take_group_entries(rest, (n - 1) as nat) {
                None => None,
                Some((es, end)) => Some((seq![e] + es, end)),
            },
        }
    }
}

/// Everything in the hotcache fits its counts.
pub open spec fn hotcache_fits(es: Seq<GroupEntryView>) -> bool {
    &&& es.len() <= u64::MAX
    &&& forall|i: int| 0 <= i < es.len() ==> (#[trigger] es[i]).fits()
}

proof fn lemma_take_group_entries(es: Seq<GroupEntryView>, rest: Seq<u8>)
    requires
        hotcache_fits(es),
    ensures
        take_group_entries(group_entries_bytes(es) + rest, es.len()) == Some((es, rest)),
    decreases es.len(),
{
    if es.len() == 0 {
        assert(group_entries_bytes(es) + rest =~= rest);
        assert(es =~= Seq::empty());
    } else {
        let tail = es.drop_first();
        assert(hotcache_fits(tail)) by {
            assert forall|i: int| 0 <= i < tail.len() implies (#[trigger] tail[i]).fits() by {
                assert(tail[i] == es[i + 1]);
            }
        }
        assert(es[0].fits());
        lemma_take_group_entries(tail, rest);
        lemma_take_group_entry(es[0], group_entries_bytes(tail) + rest);
        assert(group_entries_bytes(es) + rest =~= es[0].bytes() + (group_entries_bytes(tail)
            + rest));
        assert(seq![es[0]] + tail =~= es);
    }
}

/// A hotcache in written form.
pub open spec fn hotcache_bytes(es: Seq<GroupEntryView>) -> Seq<u8> {
    le_bytes(es.len(), 8) + group_entries_bytes(es)
}

/// A hotcache off the front.
pub open spec fn take_hotcache(s: Seq<u8>) -> Option<(Seq<GroupEntryView>, Seq<u8>)> {
    match take_uint(s, 8) {
        None => None,
        Some((n, s)) => take_group_entries(s, n),
    }
}

/// A written hotcache reads back as it was.
pub proof fn hotcache_round_trip(es: Seq<GroupEntryView>)
    requires
        hotcache_fits(es),
    ensures
        take_hotcache(hotcache_bytes(es)) == Some((es, Seq::<u8>::empty())),
{
    lemma_pow256_values();
    let none = Seq::<u8>::empty();
    lemma_take_uint(es.len(), 8, group_entries_bytes(es));
    lemma_take_group_entries(es, none);
    assert(group_entries_bytes(es) + none =~= group_entries_bytes(es));
}

#[derive(Clone, Debug, PartialEq)]
pub struct Hotcache {
    pub row_groups: Vec<RowGroupHotcacheEntry>,
}

impl Default for Hotcache {
    fn default() -> (r: Self)
        ensures
            r@ == Seq::<GroupEntryView>::empty(),
    {
        Hotcache::new()
    }
}

impl Hotcache {
    pub open spec fn view(&self) -> Seq<GroupEntryView> {
        group_entries(self.row_groups@)
    }

    pub fn new() -> (r: Self)
        ensures
            r@ == Seq::<GroupEntryView>::empty(),
    {
        let r = Hotcache { row_groups: Vec::new() };
        assert(r@ =~= Seq::empty());
        r
    }

    /// The written form.
    pub fn to_bytes(&self) -> (r: Vec<u8>)
        ensures
            r@ == hotcache_bytes(self@),
    {
        let mut out: Vec<u8> = Vec::new();
        put_len64(&mut out, self.row_groups.len());
        let ghost head = out@;
        let ghost all = self@;
        let mut i: usize = 0;
        assert(all.skip(0) =~= all);
        while i < self.row_groups.len()
            invariant
                i <= self.row_groups@.len(),
                all == self@,
                out@ + group_entries_bytes(all.skip(i as int)) == head + group_entries_bytes(all),
            decreases self.row_groups.len() - i,
        {
            let ghost mid = out@;
            self.row_groups[i].write(&mut out);
            proof {
                let here = all.skip(i as int);
                assert(here.drop_first() =~= all.skip(i + 1));
                assert(mid + (here[0].bytes() + group_entries_bytes(all.skip(i + 1))) =~= out@
                    + group_entries_bytes(all.skip(i + 1)));
            }
            i = i + 1;
        }
        assert(all.skip(i as int) =~= Seq::empty());
        assert(out@ + Seq::<u8>::empty() =~= out@);
        out
    }

    /// Reads a hotcache off the front of `bytes`; what follows it is not looked at.
    pub fn from_bytes(bytes: &[u8]) -> (r: Option<Self>)
        ensures
            match take_hotcache(bytes@) {
                Some((es, _)) => r matches Some(x) && x@ == es,
                None => r is None,
            },
    {
        let mut c = Cursor::new(bytes);
        let n: u64 = match c.take_u64() {
            Some(v) => v,
            None => return None,
        };
        let mut row_groups: Vec<RowGroupHotcacheEntry> = Vec::new();
        let ghost listed = take_group_entries(c@, n as nat);
        let mut i: u64 = 0;
        proof {
            assert(group_entries(row_groups@) =~= Seq::empty());
            if let Some((all, end)) = listed {
                assert(Seq::<GroupEntryView>::empty() + all =~= all);
            }
        }
        while i < n
            invariant
                c.wf(),
                i <= n,
                listed == take_hotcache(bytes@),
                match take_group_entries(c@, (n - i) as nat) {
                    Some((es, end)) => listed == Some((group_entries(row_groups@) + es, end)),
                    None => listed is None,
                },
            decreases n - i,
        {
            let ghost before = group_entries(row_groups@);
            match RowGroupHotcacheEntry::read(&mut c) {
                Some(e) => {
                    let ghost content = e@;
                    row_groups.push(e);
                    proof {
                        assert(group_entries(row_groups@) =~= before.push(content));
                        if let Some((es, end)) = take_group_entries(c@, (n - i - 1) as nat) {
                            assert(before + (seq![content] + es) =~= before.push(content) + es);
                        }
                    }
                },
                None => return None,
            }
            i = i + 1;
        }
        assert(group_entries(row_groups@) + Seq::<GroupEntryView>::empty() =~= group_entries(
            row_groups@,
        ));
        Some(Hotcache { row_groups })
    }
}

} // verus!
