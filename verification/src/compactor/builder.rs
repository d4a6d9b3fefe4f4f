//! Building a segment from sorted rows.
//!
//! The rows are cut into row groups in order, so that the spans of a trace fall into one
//! group. The index blobs of a group come from the caller, who sees the rows of the group.
use crate::common::errors::{ErrorView, ZenError};
use crate::common::record::{record_spans, Span, SpanRecord};
use crate::common::schema::{canonical, is_sort_key_order, ColumnView, Schema};
use crate::common::types::{PartitionId, SchemaFingerprint, TenantId};
use crate::compactor::assembly::{
    group_failure, groups_ok, index_fits, indexed_by, plain_parts, segment_parts, Assembly,
    GroupIndexes, GroupView,
};
use crate::compactor::groups::{group_ends, groups_of, row_group_end, row_groups};
use crate::cursor::string_views;
use crate::format::meta::{
    max_commit, max_id, max_time, min_commit, min_id, min_time, unobserved, MetaView,
    SegmentMetadata,
};
use crate::format::writer::total_rows;
use crate::outside::hashes::xxh3_128_of;
use crate::outside::ids::ulid_new;
use vstd::prelude::*;
use vstd::slice::slice_subrange;
use vstd::utf8::encode_utf8;

verus! {

#[derive(Clone, Debug)]
pub struct BuildOptions {
    /// Max rows per row group.
    pub row_group_max_rows: u32,
    /// Max payload bytes per row group (post-compression). Currently advisory.
    pub row_group_max_bytes: u64,
}

impl Default for BuildOptions {
    fn default() -> (r: Self)
        ensures
            r.row_group_max_rows == 16_384,
            r.row_group_max_bytes == 67_108_864,
    {
        BuildOptions { row_group_max_rows: 16_384, row_group_max_bytes: 67_108_864 }
    }
}

/// The names of the columns.
pub open spec fn column_names(columns: Seq<ColumnView>) -> Seq<Seq<char>> {
    Seq::new(columns.len(), |i: int| columns[i].name)
}

/// The names of the sort-key columns, by priority.
pub open spec fn is_sort_keys(columns: Seq<ColumnView>, names: Seq<Seq<char>>) -> bool {
    exists|r: Seq<usize>|
        #[trigger] is_sort_key_order(columns, r) && names == Seq::new(
            r.len(),
            |i: int| columns[r[i] as int].name,
        )
}

/// Metadata of a new segment in which no row was seen yet.
pub open spec fn is_blank_meta(
    m: MetaView,
    segment_id: u128,
    tenant_id: TenantId,
    partition_id: PartitionId,
    columns: Seq<ColumnView>,
) -> bool {
    &&& is_sort_keys(columns, m.sort_keys)
    &&& m == unobserved(
        segment_id,
        tenant_id,
        partition_id,
        SchemaFingerprint(xxh3_128_of(encode_utf8(canonical(columns)))),
        column_names(columns),
        m.sort_keys,
    )
}

/// Metadata whose ranges hold one more row.
pub open spec fn with_row(m: MetaView, r: Span) -> MetaView {
    MetaView {
        time_min_ms: min_time(m.time_min_ms, r.start_time_ms),
        time_max_ms: max_time(m.time_max_ms, r.start_time_ms),
        commit_id_min: min_commit(m.commit_id_min, r.commit_id),
        commit_id_max: max_commit(m.commit_id_max, r.commit_id),
        trace_id_min: min_id(m.trace_id_min, r.trace_id),
        trace_id_max: max_id(m.trace_id_max, r.trace_id),
        span_id_min: min_id(m.span_id_min, r.span_id),
        span_id_max: max_id(m.span_id_max, r.span_id),
        ..m
    }
}

/// Metadata whose ranges hold all these rows.
pub open spec fn observed(m: MetaView, rows: Seq<Span>) -> MetaView
    decreases rows.len(),
{
    if rows.len() == 0 {
        m
    } else {
        with_row(observed(m, rows.drop_last()), rows.last())
    }
}

/// The metadata of a segment of these rows.
pub open spec fn is_segment_meta(
    m: MetaView,
    segment_id: u128,
    tenant_id: TenantId,
    partition_id: PartitionId,
    columns: Seq<ColumnView>,
    rows: Seq<Span>,
) -> bool {
    exists|blank: MetaView|
        #[trigger] is_blank_meta(blank, segment_id, tenant_id, partition_id, columns) && m
            == observed(blank, rows)
}

pub(crate) fn blank_meta(
    segment_id: u128,
    tenant_id: TenantId,
    partition_id: PartitionId,
    schema: &Schema,
) -> (r: SegmentMetadata)
    ensures
        is_blank_meta(r@, segment_id, tenant_id, partition_id, schema@),
{
    let mut names: Vec<String> = Vec::new();
    let mut i: usize = 0;
    while i < schema.columns.len()
        invariant
            i <= schema.columns@.len(),
            names@.len() == i,
            forall|k: int| 0 <= k < i ==> (#[trigger] names@[k])@ == schema@[k].name,
        decreases schema.columns.len() - i,
    {
        names.push(schema.columns[i].name.clone());
        i = i + 1;
    }
    let order = schema.sort_key_columns();
    let mut keys: Vec<String> = Vec::new();
    let mut k: usize = 0;
    while k < order.len()
        invariant
            k <= order@.len(),
            is_sort_key_order(schema@, order@),
            keys@.len() == k,
            forall|j: int| 0 <= j < k ==> (#[trigger] keys@[j])@ == schema@[order@[j] as int].name,
        decreases order.len() - k,
    {
        keys.push(schema.columns[order[k]].name.clone());
        k = k + 1;
    }
    proof {
        assert(string_views(names@) =~= column_names(schema@));
        assert(string_views(keys@) =~= Seq::new(
            order@.len(),
            |i: int| schema@[order@[i] as int].name,
        ));
        assert(is_sort_keys(schema@, string_views(keys@)));
    }
    SegmentMetadata::new(segment_id, tenant_id, partition_id, schema.fingerprint(), names, keys)
}

pub(crate) fn observe(meta: &mut SegmentMetadata, r: &SpanRecord)
    ensures
        final(meta)@ == with_row(old(meta)@, r@),
{
    meta.observe_time(r.start_time_ms);
    meta.observe_commit(r.commit_id);
    meta.observe_trace_id(r.trace_id);
    meta.observe_span_id(r.span_id);
}

/// `bytes` is a segment with this metadata and these row groups.
pub open spec fn is_segment<F: Fn(&[SpanRecord]) -> Result<GroupIndexes, ZenError>>(
    index: F,
    columns: Seq<ColumnView>,
    meta: MetaView,
    chunks: Seq<Seq<Span>>,
    bytes: Seq<u8>,
) -> bool {
    exists|groups: Seq<GroupView>|
        #[trigger] groups_ok(columns, groups) && groups_hold(index, groups, chunks) && bytes
            == segment_parts(meta, columns, groups).bytes()
}

/// The groups hold these rows, with the indexes made for them.
pub open spec fn groups_hold<F: Fn(&[SpanRecord]) -> Result<GroupIndexes, ZenError>>(
    index: F,
    groups: Seq<GroupView>,
    chunks: Seq<Seq<Span>>,
) -> bool {
    &&& groups.len() == chunks.len()
    &&& forall|k: int|
        0 <= k < groups.len() ==> (#[trigger] groups[k]).rows == chunks[k] && indexed_by(
            index,
            groups[k],
        )
}

pub(crate) proof fn lemma_total_rows(m: MetaView, groups: Seq<GroupView>)
    requires
        groups.len() > 0,
        groups.last().rows.len() <= u32::MAX,
    ensures
        total_rows(plain_parts(m, groups).headers) == total_rows(
            plain_parts(m, groups.drop_last()).headers,
        ) + groups.last().rows.len(),
{
    let a = plain_parts(m, groups).headers;
    let b = plain_parts(m, groups.drop_last()).headers;
    assert(a.drop_last() =~= b);
    assert(a.last() == groups.last().header());
}

/// Builds a segment with the given identifier from sorted rows. Returns the segment and
/// its metadata; the row count in the returned metadata is left at zero.
pub fn build_segment_with_id<F: Fn(&[SpanRecord]) -> Result<GroupIndexes, ZenError>>(
    segment_id: u128,
    rows: &[SpanRecord],
    tenant_id: TenantId,
    partition_id: PartitionId,
    schema: &Schema,
    opts: &BuildOptions,
    index: &F,
) -> (r: Result<(Vec<u8>, SegmentMetadata), ZenError>)
    requires
        opts.row_group_max_rows > 0,
        index_fits(*index, schema@),
    ensures
        match r {
            Ok((bytes, meta)) => {
                &&& rows@.len() > 0
                &&& is_segment_meta(
                    meta@,
                    segment_id,
                    tenant_id,
                    partition_id,
                    schema@,
                    record_spans(rows@),
                )
                &&& is_segment(
                    *index,
                    schema@,
                    meta@,
                    row_groups(record_spans(rows@), opts.row_group_max_rows as nat),
                    bytes@,
                )
            },
            Err(e) => if rows@.len() == 0 {
                e@ == ErrorView::Invalid("build_segment with no rows"@)
            } else {
                let chunks = row_groups(record_spans(rows@), opts.row_group_max_rows as nat);
                exists|k: int|
                    0 <= k < chunks.len() && group_failure(
                        *index,
                        schema@,
                        #[trigger] chunks[k],
                        e@,
                    )
            },
        },
{
    if rows.len() == 0 {
        return Err(ZenError::invalid("build_segment with no rows"));
    }
    let ghost spans = record_spans(rows@);
    let max: u32 = opts.row_group_max_rows;
    let mut meta = blank_meta(segment_id, tenant_id, partition_id, schema);
    let ghost blank = meta@;
    let mut i: usize = 0;
    assert(spans.take(0) =~= Seq::empty());
    while i < rows.len()
        invariant
            i <= rows.len(),
            spans == record_spans(rows@),
            meta@ == observed(blank, spans.take(i as int)),
        decreases rows.len() - i,
    {
        observe(&mut meta, &rows[i]);
        assert(spans.take(i + 1).drop_last() =~= spans.take(i as int));
        i = i + 1;
    }
    assert(spans.take(i as int) =~= spans);
    let mut assembly = Assembly::new(schema, meta.copy());
    let ghost all = row_groups(spans, max as nat);
    let ghost mut rest = all;
    let mut start: usize = 0;
    assert(plain_parts(meta@, assembly.groups()).headers =~= Seq::empty());
    while start < rows.len()
        invariant
            start <= rows.len(),
            max > 0,
            max == opts.row_group_max_rows,
            index_fits(*index, schema@),
            spans == record_spans(rows@),
            all == row_groups(spans, max as nat),
            assembly.wf(),
            assembly.columns() == schema@,
            rest == groups_of(spans, start as int, group_ends(spans, start as int, max as nat)),
            all.len() == assembly.groups().len() + rest.len(),
            rest == all.skip(assembly.groups().len() as int),
            groups_hold(*index, assembly.groups(), all.take(assembly.groups().len() as int)),
            total_rows(plain_parts(meta@, assembly.groups()).headers) == start,
        decreases rows.len() - start,
    {
        let end = row_group_end(rows, start, max);
        let chunk = slice_subrange(rows, start, end);
        let ghost before = assembly.groups();
        let ghost n = before.len() as int;
        proof {
            let ends = group_ends(spans, start as int, max as nat);
            let tail = group_ends(spans, end as int, max as nat);
            assert(ends =~= seq![end as int] + tail);
            assert(ends.drop_first() =~= tail);
            let next = groups_of(spans, end as int, tail);
            assert(rest =~= seq![spans.subrange(start as int, end as int)] + next);
            assert(rest[0] == all[n]);
            assert(next =~= rest.drop_first());
            assert(rest.drop_first() =~= all.skip(n + 1));
            assert(record_spans(chunk@) =~= spans.subrange(start as int, end as int));
            assert(all[n] == record_spans(chunk@));
            rest = next;
        }
        match assembly.add_group(chunk, index) {
            Ok(()) => {},
            Err(e) => {
                assert(group_failure(*index, schema@, all[n], e@));
                return Err(e);
            },
        }
        proof {
            let groups = assembly.groups();
            lemma_total_rows(meta@, groups);
            assert forall|k: int| 0 <= k < groups.len() implies (#[trigger] groups[k]).rows
                == all.take(n + 1)[k] && indexed_by(*index, groups[k]) by {
                if k < n {
                    assert(groups[k] == groups.drop_last()[k]);
                    assert(before[k].rows == all.take(n)[k]);
                }
            }
        }
        start = end;
    }
    proof {
        assert(group_ends(spans, start as int, max as nat) =~= Seq::empty());
        assert(all.take(assembly.groups().len() as int) =~= all);
        assembly.lemma_groups_ok();
    }
    let ghost groups = assembly.groups();
    match assembly.finish(meta.copy()) {
        Ok(bytes) => {
            assert(groups_ok(schema@, groups));
            Ok((bytes, meta))
        },
        Err(e) => Err(e),
    }
}

/// Builds a segment from sorted rows under a fresh identifier.
pub fn build_segment_from_rows<F: Fn(&[SpanRecord]) -> Result<GroupIndexes, ZenError>>(
    rows: &[SpanRecord],
    tenant_id: TenantId,
    partition_id: PartitionId,
    schema: &Schema,
    opts: &BuildOptions,
    index: &F,
) -> (r: Result<(Vec<u8>, SegmentMetadata), ZenError>)
    requires
        opts.row_group_max_rows > 0,
        index_fits(*index, schema@),
    ensures
        match r {
            Ok((bytes, meta)) => {
                &&& rows@.len() > 0
                &&& is_segment_meta(
                    meta@,
                    meta.segment_id,
                    tenant_id,
                    partition_id,
                    schema@,
                    record_spans(rows@),
                )
                &&& is_segment(
                    *index,
                    schema@,
                    meta@,
                    row_groups(record_spans(rows@), opts.row_group_max_rows as nat),
                    bytes@,
                )
            },
            Err(e) => if rows@.len() == 0 {
                e@ == ErrorView::Invalid("build_segment with no rows"@)
            } else {
                let chunks = row_groups(record_spans(rows@), opts.row_group_max_rows as nat);
                exists|k: int|
                    0 <= k < chunks.len() && group_failure(
                        *index,
                        schema@,
                        #[trigger] chunks[k],
                        e@,
                    )
            },
        },
{
    let segment_id: u128 = ulid_new();
    let r = build_segment_with_id(
        segment_id,
        rows,
        tenant_id,
        partition_id,
        schema,
        opts,
        index,
    );
    proof {
        if r is Ok {
            let meta = r->Ok_0.1;
            let blank = choose|blank: MetaView|
                #[trigger] is_blank_meta(blank, segment_id, tenant_id, partition_id, schema@)
                    && meta@ == observed(blank, record_spans(rows@));
            lemma_observed_id(blank, record_spans(rows@));
            assert(meta@.segment_id == segment_id);
        }
    }
    r
}

/// Observing rows changes ranges only.
pub(crate) proof fn lemma_observed_id(m: MetaView, rows: Seq<Span>)
    ensures
        observed(m, rows).segment_id == m.segment_id,
    decreases rows.len(),
{
    if rows.len() > 0 {
        lemma_observed_id(m, rows.drop_last());
    }
}

} // verus!
