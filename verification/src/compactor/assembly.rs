//! Assembling a segment from row groups and the index blobs built for them.
use crate::common::errors::{ErrorView, ZenError};
use crate::common::record::{record_spans, Span, SpanRecord};
use crate::common::schema::{ColumnView, Schema};
use crate::compactor::columns::{
    build_row_group, is_row_group, row_group_failure, Field,
};
use crate::compactor::zones::{build_zone_maps, is_zones};
use crate::format::hotcache::{
    column_entries, group_entries, ColumnEntryView, ColumnHotcacheEntry, GroupEntryView, Hotcache,
    RowGroupHotcacheEntry,
};
use crate::format::meta::{MetaView, SegmentMetadata};
use crate::format::row_group::{entry_bytes, relative_header, HeaderView, PageEntry};
use crate::format::writer::{total_rows, SegmentParts, SegmentWriter};
use crate::rows::{byte_rows, flat, lemma_flat_push, offset_of};
use crate::wire::{low_u32, put_slice};
use vstd::prelude::*;

verus! {

/// The index blobs of one row group: posting lists for the columns that have them, in
/// order; one full-text index over all text columns; one JSON-path index, if any path was
/// found.
pub struct GroupIndexes {
    pub postings: Vec<Vec<u8>>,
    pub fts: Option<Vec<u8>>,
    pub jsonpath: Option<Vec<u8>>,
}

/// The contents of the index blobs.
pub ghost struct IndexView {
    pub postings: Seq<Seq<u8>>,
    pub fts: Option<Seq<u8>>,
    pub jsonpath: Option<Seq<u8>>,
}

/// The content of an optional blob.
pub open spec fn opt_blob(o: Option<Vec<u8>>) -> Option<Seq<u8>> {
    match o {
        Some(v) => Some(v@),
        None => None,
    }
}

/// The bytes of an optional blob.
pub open spec fn blob_or_empty(o: Option<Seq<u8>>) -> Seq<u8> {
    match o {
        Some(v) => v,
        None => Seq::empty(),
    }
}

impl GroupIndexes {
    pub open spec fn view(&self) -> IndexView {
        IndexView {
            postings: byte_rows(self.postings@),
            fts: opt_blob(self.fts),
            jsonpath: opt_blob(self.jsonpath),
        }
    }
}

impl IndexView {
    /// All blobs of the group one after the other.
    pub open spec fn bytes(self) -> Seq<u8> {
        flat(self.postings) + blob_or_empty(self.fts) + blob_or_empty(self.jsonpath)
    }

    /// The blobs are those that a group of this schema has.
    pub open spec fn fits(self, columns: Seq<ColumnView>) -> bool {
        &&& self.postings.len() == bitmap_columns(columns).len()
        &&& self.fts is Some <==> fts_columns(columns).len() > 0
        &&& self.jsonpath is Some ==> first_column(columns, "metadata"@) is Some
    }
}

/// The first column of that name stands at `i`.
pub open spec fn is_first_column(columns: Seq<ColumnView>, name: Seq<char>, i: int) -> bool {
    &&& 0 <= i < columns.len()
    &&& columns[i].name == name
    &&& forall|j: int| 0 <= j < i ==> (#[trigger] columns[j]).name != name
}

/// Where the first column of that name stands.
pub open spec fn first_column(columns: Seq<ColumnView>, name: Seq<char>) -> Option<int> {
    if exists|i: int| is_first_column(columns, name, i) {
        Some(choose|i: int| is_first_column(columns, name, i))
    } else {
        None
    }
}

/// Where the columns of those fields that the schema has stand.
pub open spec fn columns_of(columns: Seq<ColumnView>, fields: Seq<Field>) -> Seq<int>
    decreases fields.len(),
{
    if fields.len() == 0 {
        Seq::empty()
    } else {
        let rest = columns_of(columns, fields.drop_last());
        match first_column(columns, fields.last().name_text()) {
            Some(i) => rest.push(i),
            None => rest,
        }
    }
}

/// The columns with posting lists.
pub open spec fn bitmap_columns(columns: Seq<ColumnView>) -> Seq<int> {
    columns_of(
        columns,
        seq![Field::Model, Field::Status, Field::Provider, Field::ToolName, Field::SpanKind],
    )
}

/// The columns in the full-text index.
pub open spec fn fts_columns(columns: Seq<ColumnView>) -> Seq<int> {
    columns_of(columns, seq![Field::Prompt, Field::Completion, Field::ToolIoText])
}

fn find_first(schema: &Schema, name: &str) -> (r: Option<usize>)
    ensures
        match first_column(schema@, name@) {
            Some(i) => r matches Some(k) && k == i && k < schema@.len(),
            None => r is None,
        },
{
    let r = schema.index_of(name);
    proof {
        match r {
            Some(k) => {
                assert(is_first_column(schema@, name@, k as int));
                let c = choose|i: int| is_first_column(schema@, name@, i);
                assert(c == k);
            },
            None => {
                assert forall|i: int| !is_first_column(schema@, name@, i) by {}
            },
        }
    }
    r
}

fn find_columns(schema: &Schema, fields: &Vec<Field>) -> (r: Vec<usize>)
    ensures
        r@.len() == columns_of(schema@, fields@).len(),
        forall|k: int|
            0 <= k < r@.len() ==> (#[trigger] r@[k]) == columns_of(schema@, fields@)[k] && r@[k]
                < schema@.len(),
{
    let mut out: Vec<usize> = Vec::new();
    let mut i: usize = 0;
    assert(fields@.take(0) =~= Seq::empty());
    while i < fields.len()
        invariant
            i <= fields@.len(),
            out@.len() == columns_of(schema@, fields@.take(i as int)).len(),
            forall|k: int|
                0 <= k < out@.len() ==> (#[trigger] out@[k]) == columns_of(
                    schema@,
                    fields@.take(i as int),
                )[k] && out@[k] < schema@.len(),
        decreases fields.len() - i,
    {
        assert(fields@.take(i + 1).drop_last() =~= fields@.take(i as int));
        assert(fields@.take(i + 1).last() == fields@[i as int]);
        let f = fields[i];
        match find_first(schema, f.name()) {
            Some(c) => {
                out.push(c);
            },
            None => {},
        }
        i = i + 1;
    }
    assert(fields@.take(i as int) =~= fields@);
    out
}

/// Where the columns with posting lists stand.
pub fn bitmap_column_places(schema: &Schema) -> (r: Vec<usize>)
    ensures
        r@.len() == bitmap_columns(schema@).len(),
        forall|k: int|
            0 <= k < r@.len() ==> (#[trigger] r@[k]) == bitmap_columns(schema@)[k] && r@[k]
                < schema@.len(),
{
    let fields: Vec<Field> = vec![
        Field::Model,
        Field::Status,
        Field::Provider,
        Field::ToolName,
        Field::SpanKind,
    ];
    assert(fields@ =~= seq![
        Field::Model,
        Field::Status,
        Field::Provider,
        Field::ToolName,
        Field::SpanKind,
    ]);
    find_columns(schema, &fields)
}

/// Where the columns of the full-text index stand.
pub fn fts_column_places(schema: &Schema) -> (r: Vec<usize>)
    ensures
        r@.len() == fts_columns(schema@).len(),
        forall|k: int|
            0 <= k < r@.len() ==> (#[trigger] r@[k]) == fts_columns(schema@)[k] && r@[k]
                < schema@.len(),
{
    let fields: Vec<Field> = vec![Field::Prompt, Field::Completion, Field::ToolIoText];
    assert(fields@ =~= seq![Field::Prompt, Field::Completion, Field::ToolIoText]);
    find_columns(schema, &fields)
}

/// A row group with its pages, value ranges and index blobs.
pub ghost struct GroupView {
    pub rows: Seq<Span>,
    pub pages: Seq<PageEntry>,
    pub zones: Seq<ColumnEntryView>,
    pub indexes: IndexView,
}

impl GroupView {
    /// The group stores its rows under this schema.
    pub open spec fn ok(self, columns: Seq<ColumnView>) -> bool {
        &&& is_row_group(columns, self.rows, self.pages)
        &&& is_zones(columns, self.rows, self.zones)
        &&& self.indexes.fits(columns)
        &&& self.rows.len() <= u32::MAX
    }

    pub open spec fn header(self) -> HeaderView {
        relative_header(self.rows.len() as u32, self.pages)
    }

    pub open spec fn payload(self) -> Seq<u8> {
        flat(entry_bytes(self.pages))
    }

    /// The hotcache entry of the column at `i`, if the group's blobs begin at `at`.
    pub open spec fn entry(self, columns: Seq<ColumnView>, at: nat, i: int) -> ColumnEntryView {
        let fts_at = at + flat(self.indexes.postings).len();
        let json_at = fts_at + blob_or_empty(self.indexes.fts).len();
        ColumnEntryView {
            posting: posting_place(
                bitmap_columns(columns),
                self.indexes.postings,
                at,
                self.indexes.postings.len(),
                i,
            ),
            fts: if fts_columns(columns).contains(i) {
                opt_place(fts_at, self.indexes.fts)
            } else {
                (None, None)
            },
            jsonpath: if first_column(columns, "metadata"@) == Some(i) {
                opt_place(json_at, self.indexes.jsonpath)
            } else {
                (None, None)
            },
            ..self.zones[i]
        }
    }
}

/// A place of `len` bytes at `at`; offsets have 64 bits and lengths 32.
pub open spec fn place(at: nat, len: nat) -> (Option<u64>, Option<u32>) {
    (
        Some((at % 0x1_0000_0000_0000_0000) as u64),
        Some((len % 0x1_0000_0000) as u32),
    )
}

/// The place of an optional blob at `at`.
pub open spec fn opt_place(at: nat, blob: Option<Seq<u8>>) -> (Option<u64>, Option<u32>) {
    match blob {
        Some(b) => place(at, b.len()),
        None => (None, None),
    }
}

/// The place of the posting list of column `i` among the first `n` blobs.
pub open spec fn posting_place(
    cols: Seq<int>,
    blobs: Seq<Seq<u8>>,
    at: nat,
    n: nat,
    i: int,
) -> (Option<u64>, Option<u32>)
    decreases n,
{
    if n == 0 {
        (None, None)
    } else if cols[n - 1] == i {
        place(at + offset_of(blobs, n - 1), blobs[n - 1].len())
    } else {
        posting_place(cols, blobs, at, (n - 1) as nat, i)
    }
}

/// The blobs of each group.
pub open spec fn index_parts(groups: Seq<GroupView>) -> Seq<Seq<u8>> {
    Seq::new(groups.len(), |k: int| groups[k].indexes.bytes())
}

/// The hotcache entry of group `k`, if the inline indexes begin at `base`.
pub open spec fn group_entry(
    columns: Seq<ColumnView>,
    groups: Seq<GroupView>,
    base: nat,
    k: int,
) -> GroupEntryView {
    GroupEntryView {
        row_group_idx: (k % 0x1_0000_0000) as u32,
        header: groups[k].header(),
        columns: Seq::new(
            columns.len(),
            |i: int| groups[k].entry(columns, base + offset_of(index_parts(groups), k), i),
        ),
    }
}

/// The parts of a segment of those groups, without indexes.
pub open spec fn plain_parts(meta: MetaView, groups: Seq<GroupView>) -> SegmentParts {
    SegmentParts {
        meta,
        headers: Seq::new(groups.len(), |k: int| groups[k].header()),
        payloads: Seq::new(groups.len(), |k: int| groups[k].payload()),
        inline_indexes: Seq::empty(),
        hotcache: Seq::empty(),
    }
}

/// The parts of a segment of those groups. The hotcache says where each index blob
/// stands in the segment.
pub open spec fn segment_parts(
    meta: MetaView,
    columns: Seq<ColumnView>,
    groups: Seq<GroupView>,
) -> SegmentParts {
    let base = plain_parts(meta, groups).groups_end().len();
    SegmentParts {
        inline_indexes: flat(index_parts(groups)),
        hotcache: Seq::new(groups.len(), |k: int| group_entry(columns, groups, base, k)),
        ..plain_parts(meta, groups)
    }
}

/// All groups store their rows under this schema.
pub open spec fn groups_ok(columns: Seq<ColumnView>, groups: Seq<GroupView>) -> bool {
    forall|k: int| 0 <= k < groups.len() ==> (#[trigger] groups[k]).ok(columns)
}

/// `index` makes blobs for every row group, and those that a group of this schema has.
pub open spec fn index_fits<F: Fn(&[SpanRecord]) -> Result<GroupIndexes, ZenError>>(
    index: F,
    columns: Seq<ColumnView>,
) -> bool {
    &&& forall|rows: &[SpanRecord]| call_requires(index, (rows,))
    &&& forall|rows: &[SpanRecord], x: GroupIndexes|
        #[trigger] call_ensures(index, (rows,), Ok::<GroupIndexes, ZenError>(x)) ==> x@.fits(columns)
}

/// The blobs of the group are such as `index` makes for its rows.
pub open spec fn indexed_by<F: Fn(&[SpanRecord]) -> Result<GroupIndexes, ZenError>>(
    index: F,
    g: GroupView,
) -> bool {
    exists|rows: &[SpanRecord], x: GroupIndexes|
        #[trigger] call_ensures(index, (rows,), Ok::<GroupIndexes, ZenError>(x)) && record_spans(
            rows@,
        ) == g.rows && x@ == g.indexes
}

/// Adding a group of these rows can fail like this: a field cannot be encoded, or `index`
/// fails.
pub open spec fn group_failure<F: Fn(&[SpanRecord]) -> Result<GroupIndexes, ZenError>>(
    index: F,
    columns: Seq<ColumnView>,
    rows: Seq<Span>,
    e: ErrorView,
) -> bool {
    ||| row_group_failure(columns, rows, e)
    ||| exists|s: &[SpanRecord], x: ZenError|
        #[trigger] call_ensures(index, (s,), Err::<GroupIndexes, ZenError>(x)) && record_spans(s@)
            == rows && x@ == e
}

/// A segment under construction.
pub(crate) struct Assembly<'a> {
    schema: &'a Schema,
    bitmaps: Vec<usize>,
    texts: Vec<usize>,
    json: Option<usize>,
    writer: SegmentWriter,
    entries: Vec<RowGroupHotcacheEntry>,
    inline: Vec<u8>,
    groups: Ghost<Seq<GroupView>>,
}

/// Adds `by` to an offset, in 64 bits.
fn shift(o: Option<u64>, by: u64) -> (r: Option<u64>)
    ensures
        match o {
            Some(v) => r == Some(((v + by) % 0x1_0000_0000_0000_0000) as u64),
            None => r is None,
        },
{
    match o {
        Some(v) => Some(v.wrapping_add(by)),
        None => None,
    }
}

/// A place moved by `by`.
spec fn moved_place(p: (Option<u64>, Option<u32>), by: u64) -> (Option<u64>, Option<u32>) {
    match p.0 {
        Some(v) => (Some(((v + by) % 0x1_0000_0000_0000_0000) as u64), p.1),
        None => p,
    }
}

proof fn lemma_moved_place(at: nat, len: nat, base: nat)
    ensures
        moved_place(place(at, len), (base % 0x1_0000_0000_0000_0000) as u64) == place(
            base + at,
            len,
        ),
{
}

proof fn lemma_moved_posting(
    cols: Seq<int>,
    blobs: Seq<Seq<u8>>,
    at: nat,
    n: nat,
    i: int,
    base: nat,
)
    ensures
        moved_place(
            posting_place(cols, blobs, at, n, i),
            (base % 0x1_0000_0000_0000_0000) as u64,
        ) == posting_place(cols, blobs, base + at, n, i),
    decreases n,
{
    if n > 0 {
        if cols[n - 1] == i {
            lemma_moved_place(at + offset_of(blobs, n - 1), blobs[n - 1].len(), base);
        } else {
            lemma_moved_posting(cols, blobs, at, (n - 1) as nat, i, base);
        }
    }
}

/// An entry whose places are moved by `by`.
spec fn moved_entry(e: ColumnEntryView, by: u64) -> ColumnEntryView {
    ColumnEntryView {
        posting: moved_place(e.posting, by),
        fts: moved_place(e.fts, by),
        jsonpath: moved_place(e.jsonpath, by),
        ..e
    }
}

proof fn lemma_moved_entry(g: GroupView, columns: Seq<ColumnView>, at: nat, base: nat, i: int)
    ensures
        moved_entry(g.entry(columns, at, i), (base % 0x1_0000_0000_0000_0000) as u64) == g.entry(
            columns,
            base + at,
            i,
        ),
{
    lemma_moved_posting(
        bitmap_columns(columns),
        g.indexes.postings,
        at,
        g.indexes.postings.len(),
        i,
        base,
    );
    let fts_at = at + flat(g.indexes.postings).len();
    let json_at = fts_at + blob_or_empty(g.indexes.fts).len();
    lemma_moved_place(fts_at, blob_or_empty(g.indexes.fts).len(), base);
    lemma_moved_place(json_at, blob_or_empty(g.indexes.jsonpath).len(), base);
    assert(moved_entry(g.entry(columns, at, i), (base % 0x1_0000_0000_0000_0000) as u64)
        =~= g.entry(columns, base + at, i));
}

fn set_posting(entries: &mut Vec<ColumnHotcacheEntry>, c: usize, off: u64, len: u32)
    requires
        c < old(entries)@.len(),
    ensures
        final(entries)@.len() == old(entries)@.len(),
        column_entries(final(entries)@) == column_entries(old(entries)@).update(
            c as int,
            ColumnEntryView {
                posting: (Some(off), Some(len)),
                ..column_entries(old(entries)@)[c as int]
            },
        ),
{
    let ghost before = column_entries(entries@);
    entries[c].posting_offset = Some(off);
    entries[c].posting_length = Some(len);
    assert(column_entries(entries@) =~= before.update(
        c as int,
        ColumnEntryView { posting: (Some(off), Some(len)), ..before[c as int] },
    ));
}

fn set_fts(entries: &mut Vec<ColumnHotcacheEntry>, c: usize, off: u64, len: u32)
    requires
        c < old(entries)@.len(),
    ensures
        final(entries)@.len() == old(entries)@.len(),
        column_entries(final(entries)@) == column_entries(old(entries)@).update(
            c as int,
            ColumnEntryView {
                fts: (Some(off), Some(len)),
                ..column_entries(old(entries)@)[c as int]
            },
        ),
{
    let ghost before = column_entries(entries@);
    entries[c].fts_offset = Some(off);
    entries[c].fts_length = Some(len);
    assert(column_entries(entries@) =~= before.update(
        c as int,
        ColumnEntryView { fts: (Some(off), Some(len)), ..before[c as int] },
    ));
}

fn set_jsonpath(entries: &mut Vec<ColumnHotcacheEntry>, c: usize, off: u64, len: u32)
    requires
        c < old(entries)@.len(),
    ensures
        final(entries)@.len() == old(entries)@.len(),
        column_entries(final(entries)@) == column_entries(old(entries)@).update(
            c as int,
            ColumnEntryView {
                jsonpath: (Some(off), Some(len)),
                ..column_entries(old(entries)@)[c as int]
            },
        ),
{
    let ghost before = column_entries(entries@);
    entries[c].jsonpath_offset = Some(off);
    entries[c].jsonpath_length = Some(len);
    assert(column_entries(entries@) =~= before.update(
        c as int,
        ColumnEntryView { jsonpath: (Some(off), Some(len)), ..before[c as int] },
    ));
}

/// Appends posting lists and records their places.
fn place_postings(
    entries: &mut Vec<ColumnHotcacheEntry>,
    inline: &mut Vec<u8>,
    cols: &Vec<usize>,
    blobs: &Vec<Vec<u8>>,
    Ghost(places): Ghost<Seq<int>>,
)
    requires
        cols@.len() == blobs@.len(),
        places.len() == cols@.len(),
        forall|k: int|
            0 <= k < cols@.len() ==> (#[trigger] cols@[k]) == places[k] && cols@[k] < old(
                entries,
            )@.len(),
        forall|i: int|
            0 <= i < old(entries)@.len() ==> (#[trigger] column_entries(old(entries)@)[i]).posting
                == (None::<u64>, None::<u32>),
    ensures
        final(inline)@ == old(inline)@ + flat(byte_rows(blobs@)),
        final(entries)@.len() == old(entries)@.len(),
        forall|i: int|
            0 <= i < old(entries)@.len() ==> (#[trigger] column_entries(final(entries)@)[i]) == (
            ColumnEntryView {
                posting: posting_place(
                    places,
                    byte_rows(blobs@),
                    old(inline)@.len(),
                    blobs@.len(),
                    i,
                ),
                ..column_entries(old(entries)@)[i]
            }),
{
    let ghost all = byte_rows(blobs@);
    let ghost before = column_entries(entries@);
    let ghost head = inline@;
    let mut k: usize = 0;
    assert(all.take(0) =~= Seq::empty());
    assert(inline@ =~= head + flat(all.take(0)));
    while k < blobs.len()
        invariant
            k <= blobs@.len(),
            cols@.len() == blobs@.len(),
            places.len() == cols@.len(),
            all == byte_rows(blobs@),
            before.len() == entries@.len(),
            forall|k: int|
                0 <= k < cols@.len() ==> (#[trigger] cols@[k]) == places[k] && cols@[k]
                    < before.len(),
            inline@ == head + flat(all.take(k as int)),
            forall|i: int|
                0 <= i < before.len() ==> (#[trigger] column_entries(entries@)[i]) == (
                ColumnEntryView {
                    posting: posting_place(places, all, head.len(), k as nat, i),
                    ..before[i]
                }),
        decreases blobs.len() - k,
    {
        let off: u64 = inline.len() as u64;
        let len: u32 = low_u32(blobs[k].len());
        let ghost mid = column_entries(entries@);
        put_slice(inline, blobs[k].as_slice());
        set_posting(entries, cols[k], off, len);
        proof {
            lemma_flat_push(all.take(k as int), all[k as int]);
            assert(all.take(k + 1) =~= all.take(k as int).push(all[k as int]));
            assert(inline@ =~= head + flat(all.take(k + 1)));
            assert(places[k as int] == cols@[k as int]);
            assert(place(head.len() + offset_of(all, k as int), all[k as int].len()) == (
                Some(off),
                Some(len),
            ));
            assert forall|i: int| 0 <= i < before.len() implies (#[trigger] column_entries(
                entries@,
            )[i]) == (ColumnEntryView {
                posting: posting_place(places, all, head.len(), (k + 1) as nat, i),
                ..before[i]
            }) by {
                assert(mid[i].zone_map == before[i].zone_map);
            }
        }
        k = k + 1;
    }
    assert(all.take(k as int) =~= all);
}

/// Records one place for all the columns of the full-text index.
fn place_fts(
    entries: &mut Vec<ColumnHotcacheEntry>,
    cols: &Vec<usize>,
    off: u64,
    len: u32,
    Ghost(places): Ghost<Seq<int>>,
)
    requires
        places.len() == cols@.len(),
        forall|k: int|
            0 <= k < cols@.len() ==> (#[trigger] cols@[k]) == places[k] && cols@[k] < old(
                entries,
            )@.len(),
    ensures
        final(entries)@.len() == old(entries)@.len(),
        forall|i: int|
            0 <= i < old(entries)@.len() ==> (#[trigger] column_entries(final(entries)@)[i]) == (
            if places.contains(i) {
                ColumnEntryView { fts: (Some(off), Some(len)), ..column_entries(old(entries)@)[i] }
            } else {
                column_entries(old(entries)@)[i]
            }),
{
    let ghost before = column_entries(entries@);
    let mut k: usize = 0;
    while k < cols.len()
        invariant
            k <= cols@.len(),
            places.len() == cols@.len(),
            before.len() == entries@.len(),
            forall|k: int|
                0 <= k < cols@.len() ==> (#[trigger] cols@[k]) == places[k] && cols@[k]
                    < before.len(),
            forall|i: int|
                0 <= i < before.len() ==> (#[trigger] column_entries(entries@)[i]) == (
                if places.take(k as int).contains(i) {
                    ColumnEntryView { fts: (Some(off), Some(len)), ..before[i] }
                } else {
                    before[i]
                }),
        decreases cols.len() - k,
    {
        let ghost mid = column_entries(entries@);
        set_fts(entries, cols[k], off, len);
        proof {
            let c = cols@[k as int] as int;
            assert(places.take(k + 1) =~= places.take(k as int).push(places[k as int]));
            assert forall|i: int| 0 <= i < before.len() implies (#[trigger] column_entries(
                entries@,
            )[i]) == (if places.take(k + 1).contains(i) {
                ColumnEntryView { fts: (Some(off), Some(len)), ..before[i] }
            } else {
                before[i]
            }) by {
                assert(mid[i].zone_map == before[i].zone_map);
                let shorter = places.take(k as int);
                if i == c {
                    assert(places.take(k + 1)[k as int] == c);
                } else if shorter.contains(i) {
                    let j = choose|j: int| 0 <= j < shorter.len() && shorter[j] == i;
                    assert(places.take(k + 1)[j] == i);
                }
            }
        }
        k = k + 1;
    }
    assert(places.take(k as int) =~= places);
}

/// Later groups do not change the entry of a group.
proof fn lemma_group_entry_prefix(
    columns: Seq<ColumnView>,
    groups: Seq<GroupView>,
    g: GroupView,
    k: int,
)
    requires
        0 <= k < groups.len(),
    ensures
        group_entry(columns, groups.push(g), 0, k) == group_entry(columns, groups, 0, k),
{
    let a = index_parts(groups.push(g));
    let b = index_parts(groups);
    assert(a.take(k) =~= b.take(k));
    assert(group_entry(columns, groups.push(g), 0, k).columns =~= group_entry(
        columns,
        groups,
        0,
        k,
    ).columns);
}

impl<'a> Assembly<'a> {
    /// The groups added so far.
    pub closed spec fn groups(&self) -> Seq<GroupView> {
        self.groups@
    }

    pub closed spec fn columns(&self) -> Seq<ColumnView> {
        self.schema@
    }

    /// What has been assembled is what the groups say.
    pub closed spec fn wf(&self) -> bool {
        let columns = self.schema@;
        let groups = self.groups@;
        &&& self.bitmaps@.len() == bitmap_columns(columns).len()
        &&& forall|k: int|
            0 <= k < self.bitmaps@.len() ==> (#[trigger] self.bitmaps@[k]) == bitmap_columns(
                columns,
            )[k] && self.bitmaps@[k] < columns.len()
        &&& self.texts@.len() == fts_columns(columns).len()
        &&& forall|k: int|
            0 <= k < self.texts@.len() ==> (#[trigger] self.texts@[k]) == fts_columns(columns)[k]
                && self.texts@[k] < columns.len()
        &&& match first_column(columns, "metadata"@) {
            Some(i) => self.json matches Some(k) && k == i && k < columns.len(),
            None => self.json is None,
        }
        &&& groups_ok(columns, groups)
        &&& self.writer@ == plain_parts(self.writer@.meta, groups)
        &&& self.inline@ == flat(index_parts(groups))
        &&& group_entries(self.entries@) == Seq::new(
            groups.len(),
            |k: int| group_entry(columns, groups, 0, k),
        )
    }

    pub proof fn lemma_groups_ok(&self)
        requires
            self.wf(),
        ensures
            groups_ok(self.columns(), self.groups()),
    {
    }

    pub fn new(schema: &'a Schema, metadata: SegmentMetadata) -> (r: Self)
        ensures
            r.wf(),
            r.columns() == schema@,
            r.groups() == Seq::<GroupView>::empty(),
    {
        let r = Assembly {
            schema,
            bitmaps: bitmap_column_places(schema),
            texts: fts_column_places(schema),
            json: find_first(schema, "metadata"),
            writer: SegmentWriter::new(metadata),
            entries: Vec::new(),
            inline: Vec::new(),
            groups: Ghost(Seq::empty()),
        };
        proof {
            assert(r.writer@ =~= plain_parts(r.writer@.meta, r.groups@));
            assert(index_parts(r.groups@) =~= Seq::empty());
            assert(r.inline@ =~= flat(index_parts(r.groups@)));
            assert(group_entries(r.entries@) =~= Seq::new(
                0,
                |k: int| group_entry(schema@, r.groups@, 0, k),
            ));
        }
        r
    }

    /// Adds a row group with these rows and the index blobs that `index` makes for them.
    /// A group that cannot be encoded or indexed is not added.
    #[verifier::rlimit(60)]
    pub fn add_group<F: Fn(&[SpanRecord]) -> Result<GroupIndexes, ZenError>>(
        &mut self,
        rows: &[SpanRecord],
        index: &F,
    ) -> (r: Result<(), ZenError>)
        requires
            old(self).wf(),
            rows@.len() <= u32::MAX,
            index_fits(*index, old(self).columns()),
        ensures
            final(self).wf(),
            final(self).columns() == old(self).columns(),
            match r {
                Ok(()) => {
                    &&& final(self).groups().len() == old(self).groups().len() + 1
                    &&& final(self).groups().drop_last() == old(self).groups()
                    &&& final(self).groups().last().rows == record_spans(rows@)
                    &&& indexed_by(*index, final(self).groups().last())
                },
                Err(e) => {
                    &&& final(self).groups() == old(self).groups()
                    &&& group_failure(*index, old(self).columns(), record_spans(rows@), e@)
                },
            },
    {
        let ghost columns = self.schema@;
        let ghost before = self.groups@;
        let (payload, header, pages) = match build_row_group(rows, self.schema) {
            Ok(t) => t,
            Err(e) => {
                return Err(e);
            },
        };
        let mut entries = build_zone_maps(rows, self.schema);
        let made = index(rows);
        let indexes = match made {
            Ok(x) => x,
            Err(e) => {
                return Err(e);
            },
        };
        let ghost zones = column_entries(entries@);
        let ghost g = GroupView {
            rows: record_spans(rows@),
            pages: pages@,
            zones,
            indexes: indexes@,
        };
        let ghost at = self.inline@.len();
        let ghost inline0 = self.inline@;
        assert(entries@.len() == columns.len());
        assert(byte_rows(indexes.postings@).len() == indexes.postings@.len());
        proof {
            assert forall|i: int| 0 <= i < entries@.len() implies (#[trigger] column_entries(
                entries@,
            )[i]).posting == (None::<u64>, None::<u32>) by {
                assert(zones[i] == crate::compactor::zones::bare_entry(i, zones[i].zone_map));
            }
        }
        let mut inline: Vec<u8> = Vec::new();
        std::mem::swap(&mut self.inline, &mut inline);
        place_postings(
            &mut entries,
            &mut inline,
            &self.bitmaps,
            &indexes.postings,
            Ghost(bitmap_columns(columns)),
        );
        let ghost after_postings = column_entries(entries@);
        let ghost fts_at = at + flat(g.indexes.postings).len();
        match &indexes.fts {
            Some(blob) => {
                let off: u64 = inline.len() as u64;
                let len: u32 = low_u32(blob.len());
                put_slice(&mut inline, blob.as_slice());
                place_fts(&mut entries, &self.texts, off, len, Ghost(fts_columns(columns)));
                assert(opt_place(fts_at, g.indexes.fts) == (Some(off), Some(len)));
            },
            None => {},
        }
        let ghost after_fts = column_entries(entries@);
        let ghost json_at = fts_at + blob_or_empty(g.indexes.fts).len();
        proof {
            assert(inline@ =~= inline0 + flat(g.indexes.postings) + blob_or_empty(g.indexes.fts));
            assert forall|i: int| 0 <= i < columns.len() implies (#[trigger] after_fts[i]) == (
            ColumnEntryView {
                fts: if fts_columns(columns).contains(i) {
                    opt_place(fts_at, g.indexes.fts)
                } else {
                    (None, None)
                },
                ..after_postings[i]
            }) by {
                assert(zones[i] == crate::compactor::zones::bare_entry(i, zones[i].zone_map));
                assert(after_postings[i].fts == zones[i].fts);
            }
        }
        match &indexes.jsonpath {
            Some(blob) => match self.json {
                Some(c) => {
                    let off: u64 = inline.len() as u64;
                    let len: u32 = low_u32(blob.len());
                    put_slice(&mut inline, blob.as_slice());
                    set_jsonpath(&mut entries, c, off, len);
                    assert(opt_place(json_at, g.indexes.jsonpath) == (Some(off), Some(len)));
                },
                None => {},
            },
            None => {},
        }
        proof {
            assert(inline@ =~= inline0 + g.indexes.bytes());
            assert forall|i: int| 0 <= i < columns.len() implies (#[trigger] column_entries(
                entries@,
            )[i]) == g.entry(columns, at, i) by {
                assert(zones[i] == crate::compactor::zones::bare_entry(i, zones[i].zone_map));
                assert(after_fts[i].jsonpath == (None::<u64>, None::<u32>));
                assert(after_postings[i].posting == posting_place(
                    bitmap_columns(columns),
                    g.indexes.postings,
                    at,
                    g.indexes.postings.len(),
                    i,
                ));
            }
        }
        self.inline = inline;
        let idx: u32 = low_u32(self.entries.len());
        let ghost list0 = self.entries@;
        let ghost entries0 = group_entries(list0);
        assert(entries0 == Seq::new(
            before.len(),
            |k: int| group_entry(columns, before, 0, k),
        ));
        assert(list0.len() == before.len());
        self.entries.push(
            RowGroupHotcacheEntry {
                row_group_idx: idx,
                header: header.copy(),
                columns: entries,
            },
        );
        self.writer.add_row_group(header, payload);
        self.groups = Ghost(before.push(g));
        proof {
            let groups = self.groups@;
            lemma_flat_push(index_parts(before), g.indexes.bytes());
            assert(index_parts(groups) =~= index_parts(before).push(g.indexes.bytes()));
            assert(self.writer@ =~= plain_parts(self.writer@.meta, groups));
            assert forall|k: int| 0 <= k < groups.len() implies (#[trigger] group_entries(
                self.entries@,
            )[k]) == group_entry(columns, groups, 0, k) by {
                let parts = index_parts(groups);
                let e = group_entries(self.entries@)[k];
                if k < before.len() {
                    lemma_group_entry_prefix(columns, before, g, k);
                    assert(entries0[k] == group_entry(columns, before, 0, k));
                    assert(self.entries@[k] == list0[k]);
                } else {
                    assert(parts.take(k) =~= index_parts(before));
                    assert(offset_of(parts, k) == at);
                    assert(e.columns =~= group_entry(columns, groups, 0, k).columns);
                }
            }
            assert(group_entries(self.entries@) =~= Seq::new(
                groups.len(),
                |k: int| group_entry(columns, groups, 0, k),
            ));
            assert(groups.drop_last() =~= before);
        }
        Ok(())
    }

    /// The segment of the groups, with this metadata at its head.
    pub fn finish(self, metadata: SegmentMetadata) -> (r: Result<Vec<u8>, ZenError>)
        requires
            self.wf(),
            total_rows(plain_parts(metadata@, self.groups()).headers) <= u64::MAX,
        ensures
            r matches Ok(bytes) && bytes@ == segment_parts(
                metadata@,
                self.columns(),
                self.groups(),
            ).bytes(),
    {
        let ghost columns = self.schema@;
        let ghost groups = self.groups@;
        let Assembly { schema, bitmaps, texts, json, mut writer, mut entries, inline, groups: _ } =
            self;
        writer.set_metadata(metadata);
        assert(writer@ =~= plain_parts(metadata@, groups));
        let base: u64 = writer.inline_indexes_offset();
        let ghost full = plain_parts(metadata@, groups).groups_end().len();
        shift_groups(&mut entries, base, Ghost(columns), Ghost(groups), Ghost(full));
        writer.set_inline_indexes(inline);
        writer.set_hotcache(Hotcache { row_groups: entries });
        assert(writer@ =~= segment_parts(metadata@, columns, groups));
        writer.finish()
    }
}

/// Moves all places of a group's entries by `base`.
fn shift_entries(entries: &mut Vec<ColumnHotcacheEntry>, base: u64)
    ensures
        final(entries)@.len() == old(entries)@.len(),
        forall|i: int|
            0 <= i < old(entries)@.len() ==> (#[trigger] column_entries(final(entries)@)[i])
                == moved_entry(column_entries(old(entries)@)[i], base),
{
    let ghost before = column_entries(entries@);
    let mut i: usize = 0;
    while i < entries.len()
        invariant
            i <= entries@.len(),
            entries@.len() == before.len(),
            forall|k: int|
                0 <= k < i ==> (#[trigger] column_entries(entries@)[k]) == moved_entry(
                    before[k],
                    base,
                ),
            forall|k: int|
                i <= k < before.len() ==> (#[trigger] column_entries(entries@)[k]) == before[k],
        decreases entries.len() - i,
    {
        let ghost list = entries@;
        let ghost mid = column_entries(entries@);
        let posting = shift(entries[i].posting_offset, base);
        let fts = shift(entries[i].fts_offset, base);
        let jsonpath = shift(entries[i].jsonpath_offset, base);
        assert(mid[i as int] == before[i as int]);
        entries[i].posting_offset = posting;
        entries[i].fts_offset = fts;
        entries[i].jsonpath_offset = jsonpath;
        proof {
            assert forall|k: int| 0 <= k < before.len() && k != i implies (#[trigger] column_entries(
                entries@,
            )[k]) == mid[k] by {
                assert(entries@[k] == list[k]);
            }
            assert(column_entries(entries@)[i as int] =~= moved_entry(before[i as int], base));
        }
        i = i + 1;
    }
}

/// Moves the places in all groups' entries to where the inline indexes begin.
fn shift_groups(
    entries: &mut Vec<RowGroupHotcacheEntry>,
    base: u64,
    Ghost(columns): Ghost<Seq<ColumnView>>,
    Ghost(groups): Ghost<Seq<GroupView>>,
    Ghost(full): Ghost<nat>,
)
    requires
        base == full % 0x1_0000_0000_0000_0000,
        group_entries(old(entries)@) == Seq::new(
            groups.len(),
            |k: int| group_entry(columns, groups, 0, k),
        ),
    ensures
        group_entries(final(entries)@) == Seq::new(
            groups.len(),
            |k: int| group_entry(columns, groups, full, k),
        ),
{
    let ghost before = group_entries(entries@);
    assert(before.len() == entries@.len());
    let mut i: usize = 0;
    while i < entries.len()
        invariant
            i <= entries@.len(),
            base == full % 0x1_0000_0000_0000_0000,
            entries@.len() == groups.len(),
            forall|k: int|
                0 <= k < i ==> (#[trigger] group_entries(entries@)[k]) == group_entry(
                    columns,
                    groups,
                    full,
                    k,
                ),
            forall|k: int|
                i <= k < groups.len() ==> (#[trigger] group_entries(entries@)[k]) == group_entry(
                    columns,
                    groups,
                    0,
                    k,
                ),
        decreases entries.len() - i,
    {
        let ghost list = entries@;
        let ghost mid = group_entries(entries@);
        let ghost at = offset_of(index_parts(groups), i as int);
        assert(mid[i as int] == group_entry(columns, groups, 0, i as int));
        shift_entries(&mut entries[i].columns, base);
        proof {
            assert forall|k: int| 0 <= k < groups.len() && k != i implies (#[trigger] group_entries(
                entries@,
            )[k]) == mid[k] by {
                assert(entries@[k] == list[k]);
            }
            let e = group_entries(entries@)[i as int];
            let old_columns = column_entries(list[i as int].columns@);
            let new_columns = column_entries(entries@[i as int].columns@);
            assert(mid[i as int].columns == old_columns);
            assert(old_columns.len() == columns.len());
            assert(e.columns == new_columns);
            assert forall|c: int| 0 <= c < columns.len() implies (#[trigger] e.columns[c])
                == groups[i as int].entry(columns, full + at, c) by {
                assert(old_columns[c] == groups[i as int].entry(columns, at, c));
                assert(new_columns[c] == moved_entry(old_columns[c], base));
                lemma_moved_entry(groups[i as int], columns, at, full, c);
            }
            assert(e.columns =~= group_entry(columns, groups, full, i as int).columns);
            assert(e =~= group_entry(columns, groups, full, i as int));
        }
        i = i + 1;
    }
    assert(group_entries(entries@) =~= Seq::new(
        groups.len(),
        |k: int| group_entry(columns, groups, full, k),
    ));
}

} // verus!
