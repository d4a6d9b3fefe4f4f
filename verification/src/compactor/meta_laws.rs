//! What a segment's metadata and catalog key say.
use crate::common::record::Span;
use crate::common::schema::ColumnView;
use crate::common::types::{PartitionId, TenantId};
use crate::compactor::assembly::{segment_parts, GroupView};
use crate::compactor::build_laws::metadata_covers_rows;
use crate::compactor::builder::{is_blank_meta, is_segment_meta, observed, with_row};
use crate::compactor::runner::segment_key;
use crate::format::meta::{sixteen, MetaView};
use crate::format::writer::total_rows;
use crate::order::{lemma_lex_antisymmetric, lex_le, lex_lt};
use crate::outside::ids::{base32, lemma_base32_back};
use crate::text::digits;
use vstd::prelude::*;
use vstd::string::*;

verus! {

proof fn lemma_widest(id: Seq<u8>, n: nat)
    requires
        id.len() == n,
    ensures
        lex_le(Seq::new(n, |i: int| 0u8), id),
        lex_le(id, Seq::new(n, |i: int| 0xffu8)),
    decreases n,
{
    if n > 0 {
        let m = (n - 1) as nat;
        lemma_widest(id.drop_first(), m);
        assert(Seq::new(n, |i: int| 0u8).drop_first() =~= Seq::new(m, |i: int| 0u8));
        assert(Seq::new(n, |i: int| 0xffu8).drop_first() =~= Seq::new(m, |i: int| 0xffu8));
    }
}

/// Every bound of the metadata is that of one of the first `n` rows.
spec fn bounds_reached(m: MetaView, rows: Seq<Span>) -> bool {
    &&& exists|i: int| 0 <= i < rows.len() && (#[trigger] rows[i]).start_time_ms == m.time_min_ms
    &&& exists|i: int| 0 <= i < rows.len() && (#[trigger] rows[i]).start_time_ms == m.time_max_ms
    &&& exists|i: int| 0 <= i < rows.len() && (#[trigger] rows[i]).commit_id == m.commit_id_min
    &&& exists|i: int| 0 <= i < rows.len() && (#[trigger] rows[i]).commit_id == m.commit_id_max
    &&& exists|i: int| 0 <= i < rows.len() && (#[trigger] rows[i]).trace_id == m.trace_id_min
    &&& exists|i: int| 0 <= i < rows.len() && (#[trigger] rows[i]).trace_id == m.trace_id_max
    &&& exists|i: int| 0 <= i < rows.len() && (#[trigger] rows[i]).span_id == m.span_id_min
    &&& exists|i: int| 0 <= i < rows.len() && (#[trigger] rows[i]).span_id == m.span_id_max
}

/// Metadata that has seen no row has bounds that every row replaces.
spec fn nothing_seen(m: MetaView) -> bool {
    &&& m.time_min_ms == i64::MAX
    &&& m.time_max_ms == i64::MIN
    &&& m.commit_id_min.0 == u64::MAX
    &&& m.commit_id_max.0 == 0
    &&& m.trace_id_min == Seq::new(16, |i: int| 0xffu8)
    &&& m.trace_id_max == Seq::new(16, |i: int| 0u8)
    &&& m.span_id_min == Seq::new(16, |i: int| 0xffu8)
    &&& m.span_id_max == Seq::new(16, |i: int| 0u8)
}

proof fn lemma_first_row(m: MetaView, r: Span)
    requires
        nothing_seen(m),
        r.trace_id.len() == 16,
        r.span_id.len() == 16,
    ensures
        bounds_reached(with_row(m, r), seq![r]),
{
    lemma_widest(r.trace_id, 16);
    lemma_widest(r.span_id, 16);
    let w = with_row(m, r);
    if !lex_lt(r.trace_id, m.trace_id_min) {
        lemma_lex_antisymmetric(r.trace_id, m.trace_id_min);
    }
    if !lex_lt(m.trace_id_max, r.trace_id) {
        lemma_lex_antisymmetric(r.trace_id, m.trace_id_max);
    }
    if !lex_lt(r.span_id, m.span_id_min) {
        lemma_lex_antisymmetric(r.span_id, m.span_id_min);
    }
    if !lex_lt(m.span_id_max, r.span_id) {
        lemma_lex_antisymmetric(r.span_id, m.span_id_max);
    }
    let rows = seq![r];
    assert(rows[0] == r);
    assert(r.commit_id == w.commit_id_min);
    assert(r.commit_id == w.commit_id_max);
}

proof fn lemma_bounds_reached(m: MetaView, rows: Seq<Span>)
    requires
        nothing_seen(m),
        rows.len() > 0,
        forall|i: int|
            0 <= i < rows.len() ==> (#[trigger] rows[i]).trace_id.len() == 16
                && rows[i].span_id.len() == 16,
    ensures
        bounds_reached(observed(m, rows), rows),
    decreases rows.len(),
{
    let head = rows.drop_last();
    let r = rows.last();
    let n = rows.len() - 1;
    assert(rows[n] == r);
    if n == 0 {
        assert(observed(m, head) == m);
        lemma_first_row(m, r);
        assert(rows =~= seq![r]);
    } else {
        assert forall|i: int| 0 <= i < head.len() implies (#[trigger] head[i]).trace_id.len() == 16
            && head[i].span_id.len() == 16 by {
            assert(head[i] == rows[i]);
        }
        lemma_bounds_reached(m, head);
        let b = observed(m, head);
        let w = observed(m, rows);
        assert forall|i: int| 0 <= i < head.len() implies #[trigger] rows[i] == head[i] by {}
        let a1 = choose|i: int| 0 <= i < n && (#[trigger] head[i]).start_time_ms == b.time_min_ms;
        let a2 = choose|i: int| 0 <= i < n && (#[trigger] head[i]).start_time_ms == b.time_max_ms;
        let a3 = choose|i: int| 0 <= i < n && (#[trigger] head[i]).commit_id == b.commit_id_min;
        let a4 = choose|i: int| 0 <= i < n && (#[trigger] head[i]).commit_id == b.commit_id_max;
        let a5 = choose|i: int| 0 <= i < n && (#[trigger] head[i]).trace_id == b.trace_id_min;
        let a6 = choose|i: int| 0 <= i < n && (#[trigger] head[i]).trace_id == b.trace_id_max;
        let a7 = choose|i: int| 0 <= i < n && (#[trigger] head[i]).span_id == b.span_id_min;
        let a8 = choose|i: int| 0 <= i < n && (#[trigger] head[i]).span_id == b.span_id_max;
        assert(rows[a1].start_time_ms == b.time_min_ms);
        assert(rows[a2].start_time_ms == b.time_max_ms);
        assert(rows[a3].commit_id == b.commit_id_min);
        assert(rows[a4].commit_id == b.commit_id_max);
        assert(rows[a5].trace_id == b.trace_id_min);
        assert(rows[a6].trace_id == b.trace_id_max);
        assert(rows[a7].span_id == b.span_id_min);
        assert(rows[a8].span_id == b.span_id_max);
    }
}

proof fn lemma_observed_same(m: MetaView, rows: Seq<Span>)
    ensures
        observed(m, rows).segment_id == m.segment_id,
        observed(m, rows).tenant_id == m.tenant_id,
        observed(m, rows).partition_id == m.partition_id,
        observed(m, rows).schema_fingerprint == m.schema_fingerprint,
        observed(m, rows).row_count == m.row_count,
        observed(m, rows).column_names == m.column_names,
        observed(m, rows).sort_keys == m.sort_keys,
    decreases rows.len(),
{
    if rows.len() > 0 {
        lemma_observed_same(m, rows.drop_last());
    }
}

/// The metadata of a segment bounds its rows tightly: start times, commits, traces and spans
/// lie between the bounds, and each bound is that of a row.
pub proof fn metadata_bounds_are_those_of_rows(
    m: MetaView,
    segment_id: u128,
    tenant_id: TenantId,
    partition_id: PartitionId,
    columns: Seq<ColumnView>,
    rows: Seq<Span>,
)
    requires
        is_segment_meta(m, segment_id, tenant_id, partition_id, columns, rows),
        rows.len() > 0,
        forall|i: int|
            0 <= i < rows.len() ==> (#[trigger] rows[i]).trace_id.len() == 16
                && rows[i].span_id.len() == 16,
    ensures
        forall|i: int|
            0 <= i < rows.len() ==> m.time_min_ms <= (#[trigger] rows[i]).start_time_ms
                <= m.time_max_ms,
        forall|i: int|
            0 <= i < rows.len() ==> m.commit_id_min.0 <= (#[trigger] rows[i]).commit_id.0
                <= m.commit_id_max.0,
        forall|i: int|
            0 <= i < rows.len() ==> lex_le(m.trace_id_min, (#[trigger] rows[i]).trace_id) && lex_le(
                rows[i].trace_id,
                m.trace_id_max,
            ),
        forall|i: int|
            0 <= i < rows.len() ==> lex_le(m.span_id_min, (#[trigger] rows[i]).span_id) && lex_le(
                rows[i].span_id,
                m.span_id_max,
            ),
        exists|i: int| 0 <= i < rows.len() && (#[trigger] rows[i]).start_time_ms == m.time_min_ms,
        exists|i: int| 0 <= i < rows.len() && (#[trigger] rows[i]).start_time_ms == m.time_max_ms,
        exists|i: int| 0 <= i < rows.len() && (#[trigger] rows[i]).commit_id == m.commit_id_min,
        exists|i: int| 0 <= i < rows.len() && (#[trigger] rows[i]).commit_id == m.commit_id_max,
        exists|i: int| 0 <= i < rows.len() && (#[trigger] rows[i]).trace_id == m.trace_id_min,
        exists|i: int| 0 <= i < rows.len() && (#[trigger] rows[i]).trace_id == m.trace_id_max,
        exists|i: int| 0 <= i < rows.len() && (#[trigger] rows[i]).span_id == m.span_id_min,
        exists|i: int| 0 <= i < rows.len() && (#[trigger] rows[i]).span_id == m.span_id_max,
{
    let blank = choose|blank: MetaView|
        #[trigger] is_blank_meta(blank, segment_id, tenant_id, partition_id, columns) && m
            == observed(blank, rows);
    assert(is_blank_meta(blank, segment_id, tenant_id, partition_id, columns) && m == observed(
        blank,
        rows,
    ));
    assert(sixteen(0xff) =~= Seq::new(16, |i: int| 0xffu8));
    assert(sixteen(0) =~= Seq::new(16, |i: int| 0u8));
    lemma_bounds_reached(blank, rows);
    assert forall|i: int| 0 <= i < rows.len() implies crate::compactor::build_laws::covers(
        m,
        #[trigger] rows[i],
    ) by {
        metadata_covers_rows(blank, rows, i);
    }
}

/// The metadata of a segment names the segment, its tenant and its partition, and its columns
/// in the order of the schema.
pub proof fn metadata_names_its_segment(
    m: MetaView,
    segment_id: u128,
    tenant_id: TenantId,
    partition_id: PartitionId,
    columns: Seq<ColumnView>,
    rows: Seq<Span>,
)
    requires
        is_segment_meta(m, segment_id, tenant_id, partition_id, columns, rows),
    ensures
        m.segment_id == segment_id,
        m.tenant_id == tenant_id,
        m.partition_id == partition_id,
        m.column_names.len() == columns.len(),
        forall|i: int| 0 <= i < columns.len() ==> #[trigger] m.column_names[i] == columns[i].name,
{
    let blank = choose|blank: MetaView|
        #[trigger] is_blank_meta(blank, segment_id, tenant_id, partition_id, columns) && m
            == observed(blank, rows);
    assert(is_blank_meta(blank, segment_id, tenant_id, partition_id, columns) && m == observed(
        blank,
        rows,
    ));
    lemma_observed_same(blank, rows);
}

/// How many rows the groups hold.
pub open spec fn rows_in(groups: Seq<GroupView>) -> nat
    decreases groups.len(),
{
    if groups.len() == 0 {
        0
    } else {
        rows_in(groups.drop_last()) + groups.last().rows.len()
    }
}

/// The row count in a written segment's metadata is the number of rows of all its groups.
pub proof fn written_row_counts_are_exact(
    meta: MetaView,
    columns: Seq<ColumnView>,
    groups: Seq<GroupView>,
)
    requires
        forall|k: int| 0 <= k < groups.len() ==> (#[trigger] groups[k]).rows.len() <= u32::MAX,
        rows_in(groups) <= u64::MAX,
    ensures
        segment_parts(meta, columns, groups).full_meta().row_count == rows_in(groups),
{
    let headers = segment_parts(meta, columns, groups).headers;
    assert(headers =~= Seq::new(groups.len(), |k: int| groups[k].header()));
    lemma_header_rows(groups);
}

proof fn lemma_header_rows(groups: Seq<GroupView>)
    requires
        forall|k: int| 0 <= k < groups.len() ==> (#[trigger] groups[k]).rows.len() <= u32::MAX,
    ensures
        total_rows(Seq::new(groups.len(), |k: int| groups[k].header())) == rows_in(groups),
    decreases groups.len(),
{
    let hs = Seq::new(groups.len(), |k: int| groups[k].header());
    if groups.len() > 0 {
        let d = groups.drop_last();
        assert forall|k: int| 0 <= k < d.len() implies (#[trigger] d[k]).rows.len() <= u32::MAX by {
            assert(d[k] == groups[k]);
        }
        lemma_header_rows(d);
        assert(hs.drop_last() =~= Seq::new(d.len(), |k: int| d[k].header()));
        assert(groups[groups.len() - 1].rows.len() <= u32::MAX);
        assert(hs.last() == groups.last().header());
    }
}

pub proof fn lemma_digits_len(n: nat, width: nat)
    ensures
        digits(n, 16, width).len() == width,
    decreases width,
{
    if width > 0 {
        lemma_digits_len(n / 16, (width - 1) as nat);
    }
}

pub proof fn lemma_hex_injective(a: nat, b: nat, width: nat)
    requires
        digits(a, 16, width) == digits(b, 16, width),
        a < pow16(width),
        b < pow16(width),
    ensures
        a == b,
    decreases width,
{
    if width > 0 {
        let w = (width - 1) as nat;
        let x = digits(a, 16, width);
        let y = digits(b, 16, width);
        assert(x.last() == y.last());
        assert(x.drop_last() =~= digits(a / 16, 16, w));
        assert(y.drop_last() =~= digits(b / 16, 16, w));
        lemma_hex_injective(a / 16, b / 16, w);
        assert(a % 16 == b % 16);
    }
}

pub open spec fn pow16(n: nat) -> nat
    decreases n,
{
    if n == 0 {
        1
    } else {
        16 * pow16((n - 1) as nat)
    }
}

proof fn lemma_base32_len(n: nat, width: nat)
    ensures
        base32(n, width).len() == width,
    decreases width,
{
    if width > 0 {
        lemma_base32_len(n / 32, (width - 1) as nat);
    }
}

/// No two segments have the same key, whichever of tenant, partition and identifier they
/// differ in, and all keys stand under `segments/` and end in `.zseg`.
pub proof fn segment_keys_are_distinct(
    t1: TenantId,
    p1: PartitionId,
    s1: u128,
    t2: TenantId,
    p2: PartitionId,
    s2: u128,
)
    ensures
        segment_key(t1, p1, s1) == segment_key(t2, p2, s2) ==> t1 == t2 && p1 == p2 && s1 == s2,
        "segments/"@.is_prefix_of(segment_key(t1, p1, s1)),
        segment_key(t1, p1, s1).skip(segment_key(t1, p1, s1).len() - 5) == ".zseg"@,
{
    reveal_strlit("segments/");
    reveal_strlit("/");
    reveal_strlit(".zseg");
    reveal_strlit("t");
    reveal_strlit("p");
    let a = segment_key(t1, p1, s1);
    let b = segment_key(t2, p2, s2);
    lemma_digits_len(t1.0 as nat, 16);
    lemma_digits_len(t2.0 as nat, 16);
    lemma_digits_len(p1.0 as nat, 8);
    lemma_digits_len(p2.0 as nat, 8);
    lemma_base32_len(s1 as nat, 26);
    lemma_base32_len(s2 as nat, 26);
    assert(a.subrange(10, 26) =~= digits(t1.0 as nat, 16, 16));
    assert(b.subrange(10, 26) =~= digits(t2.0 as nat, 16, 16));
    assert(a.subrange(28, 36) =~= digits(p1.0 as nat, 16, 8));
    assert(b.subrange(28, 36) =~= digits(p2.0 as nat, 16, 8));
    assert(a.subrange(37, 63) =~= base32(s1 as nat, 26));
    assert(b.subrange(37, 63) =~= base32(s2 as nat, 26));
    assert(a.subrange(0, 9) =~= "segments/"@);
    assert(a.skip(63) =~= ".zseg"@);
    if a == b {
        reveal_with_fuel(pow16, 17);
        lemma_hex_injective(t1.0 as nat, t2.0 as nat, 16);
        lemma_hex_injective(p1.0 as nat, p2.0 as nat, 8);
        lemma_base32_back(s1 as nat);
        lemma_base32_back(s2 as nat);
    }
}

} // verus!
