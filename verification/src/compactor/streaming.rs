//! Building a segment from a stream of sorted rows, one row group at a time.
//!
//! Memory is bounded by the rows of a group, not by the rows of the segment.
use crate::common::errors::{ErrorView, ZenError};
use crate::common::record::{record_spans, Span, SpanRecord};
use crate::common::schema::Schema;
use crate::common::types::{PartitionId, TenantId};
use crate::compactor::assembly::{
    group_failure, groups_ok, index_fits, indexed_by, plain_parts, Assembly, GroupIndexes,
};
use crate::compactor::builder::{
    blank_meta, groups_hold, is_blank_meta, is_segment, is_segment_meta, lemma_observed_id,
    lemma_total_rows, observe, observed, BuildOptions,
};
use crate::compactor::merge::same_span;
use crate::compactor::sources::RowSource;
use crate::format::meta::{MetaView, SegmentMetadata};
use crate::format::writer::total_rows;
use crate::order::bytes_eq;
use crate::outside::ids::ulid_new;
use vstd::prelude::*;

verus! {

/// The row groups that are closed, the rows of the group that is not, and how many rows
/// both hold.
pub ghost struct StreamView {
    pub groups: Seq<Seq<Span>>,
    pub buf: Seq<Span>,
    pub total: nat,
}

/// One more row. Another version of the last row replaces it if its commit is higher. Any
/// other row closes a full group, and is appended.
pub open spec fn stream_step(s: StreamView, r: Span, max: nat) -> StreamView {
    if s.buf.len() > 0 && same_span(s.buf.last(), r) {
        if r.commit_id.0 > s.buf.last().commit_id.0 {
            StreamView { buf: s.buf.update(s.buf.len() - 1, r), ..s }
        } else {
            s
        }
    } else if s.buf.len() > 0 && s.buf.len() >= max {
        StreamView { groups: s.groups.push(s.buf), buf: seq![r], total: s.total + 1 }
    } else {
        StreamView { groups: s.groups, buf: s.buf.push(r), total: s.total + 1 }
    }
}

/// What a stream of rows becomes.
pub open spec fn streamed(rows: Seq<Span>, max: nat) -> StreamView
    decreases rows.len(),
{
    if rows.len() == 0 {
        StreamView { groups: Seq::empty(), buf: Seq::empty(), total: 0 }
    } else {
        stream_step(streamed(rows.drop_last(), max), rows.last(), max)
    }
}

/// The row groups of a stream that has ended.
pub open spec fn streamed_groups(rows: Seq<Span>, max: nat) -> Seq<Seq<Span>> {
    let s = streamed(rows, max);
    if s.buf.len() > 0 {
        s.groups.push(s.buf)
    } else {
        s.groups
    }
}

/// The open group holds the last rows of the stream, and at most the allowed number, or one.
pub proof fn lemma_streamed(rows: Seq<Span>, max: nat)
    ensures
        streamed(rows, max).total <= rows.len(),
        streamed(rows, max).buf.len() <= max || streamed(rows, max).buf.len() == 1,
        rows.len() > 0 ==> streamed(rows, max).buf.len() > 0,
        streamed(rows, max).total >= streamed(rows, max).buf.len(),
        streamed(rows, max).total == 0 ==> rows.len() == 0,
    decreases rows.len(),
{
    if rows.len() > 0 {
        lemma_streamed(rows.drop_last(), max);
    }
}

/// A group is `n` prefix groups of a longer stream.
proof fn lemma_streamed_prefix(rows: Seq<Span>, n: int, max: nat)
    requires
        0 <= n <= rows.len(),
    ensures
        streamed(rows.take(n), max).groups.len() <= streamed(rows, max).groups.len(),
        forall|k: int|
            0 <= k < streamed(rows.take(n), max).groups.len() ==> streamed(
                rows.take(n),
                max,
            ).groups[k] == #[trigger] streamed(rows, max).groups[k],
    decreases rows.len() - n,
{
    if n < rows.len() {
        lemma_streamed_prefix(rows, n + 1, max);
        assert(rows.take(n + 1).drop_last() =~= rows.take(n));
    } else {
        assert(rows.take(n) =~= rows);
    }
}

/// No row is followed by another version of its span.
pub open spec fn no_adjacent_versions(rows: Seq<Span>) -> bool {
    forall|i: int, j: int|
        0 <= i && j == i + 1 && j < rows.len() ==> !same_span(#[trigger] rows[i], #[trigger] rows[j])
}

proof fn lemma_streamed_buf(rows: Seq<Span>, max: nat)
    ensures
        no_adjacent_versions(streamed(rows, max).buf),
        forall|k: int|
            0 <= k < streamed(rows, max).groups.len() ==> no_adjacent_versions(
                #[trigger] streamed(rows, max).groups[k],
            ) && 0 < streamed(rows, max).groups[k].len() && (streamed(rows, max).groups[k].len()
                <= max || streamed(rows, max).groups[k].len() == 1),
    decreases rows.len(),
{
    if rows.len() > 0 {
        lemma_streamed_buf(rows.drop_last(), max);
        lemma_streamed(rows.drop_last(), max);
        let s = streamed(rows.drop_last(), max);
        let r = rows.last();
        if s.buf.len() > 0 && same_span(s.buf.last(), r) {
            let b = s.buf.update(s.buf.len() - 1, r);
            assert forall|i: int, j: int| 0 <= i && j == i + 1 && j < b.len() implies !same_span(
                #[trigger] b[i],
                #[trigger] b[j],
            ) by {
                assert(!same_span(s.buf[i], s.buf[j]));
            }
        } else {
            let b = if s.buf.len() > 0 && s.buf.len() >= max {
                seq![r]
            } else {
                s.buf.push(r)
            };
            assert forall|i: int, j: int| 0 <= i && j == i + 1 && j < b.len() implies !same_span(
                #[trigger] b[i],
                #[trigger] b[j],
            ) by {
                if j < s.buf.len() {
                    assert(!same_span(s.buf[i], s.buf[j]));
                } else {
                    assert(b[i] == s.buf.last());
                }
            }
            let next = streamed(rows, max);
            assert forall|k: int| 0 <= k < next.groups.len() implies no_adjacent_versions(
                #[trigger] next.groups[k],
            ) && 0 < next.groups[k].len() && (next.groups[k].len() <= max || next.groups[k].len()
                == 1) by {
                if k < s.groups.len() {
                    assert(next.groups[k] == s.groups[k]);
                }
            }
        }
    }
}

proof fn lemma_streamed_full(rows: Seq<Span>, max: nat)
    ensures
        forall|k: int|
            0 <= k < streamed(rows, max).groups.len() ==> (#[trigger] streamed(
                rows,
                max,
            ).groups[k]).len() >= max,
    decreases rows.len(),
{
    if rows.len() > 0 {
        lemma_streamed_full(rows.drop_last(), max);
        let s = streamed(rows.drop_last(), max);
        let next = streamed(rows, max);
        assert forall|k: int| 0 <= k < next.groups.len() implies (#[trigger] next.groups[k]).len()
            >= max by {
            if k < s.groups.len() {
                assert(next.groups[k] == s.groups[k]);
            }
        }
    }
}

/// Of the row groups made from a stream all but the last hold as many rows as allowed.
pub proof fn streamed_groups_are_full(rows: Seq<Span>, max: nat, k: int)
    requires
        max > 0,
        0 <= k < streamed_groups(rows, max).len() - 1,
    ensures
        streamed_groups(rows, max)[k].len() == max,
{
    lemma_streamed_full(rows, max);
    lemma_streamed(rows, max);
    let s = streamed(rows, max);
    assert(streamed_groups(rows, max)[k] == s.groups[k]);
    streamed_groups_are_deduplicated(rows, max, k);
}

/// Row groups made from a stream are not empty and hold at most the allowed number of
/// rows, or one. In none of them a row is followed by another version of its span.
pub proof fn streamed_groups_are_deduplicated(rows: Seq<Span>, max: nat, k: int)
    requires
        0 <= k < streamed_groups(rows, max).len(),
    ensures
        no_adjacent_versions(streamed_groups(rows, max)[k]),
        0 < streamed_groups(rows, max)[k].len(),
        streamed_groups(rows, max)[k].len() <= max || streamed_groups(rows, max)[k].len() == 1,
{
    lemma_streamed_buf(rows, max);
    lemma_streamed(rows, max);
    let s = streamed(rows, max);
    if k < s.groups.len() {
        assert(streamed_groups(rows, max)[k] == s.groups[k]);
    }
}

/// Some group of the stream cannot be stored.
pub open spec fn stream_failure<F: Fn(&[SpanRecord]) -> Result<GroupIndexes, ZenError>>(
    index: F,
    schema: Schema,
    rows: Seq<Span>,
    max: nat,
    e: ErrorView,
) -> bool {
    exists|k: int|
        0 <= k < streamed_groups(rows, max).len() && group_failure(
            index,
            schema@,
            #[trigger] streamed_groups(rows, max)[k],
            e,
        )
}

fn is_same_span(a: &SpanRecord, b: &SpanRecord) -> (r: bool)
    ensures
        r == same_span(a@, b@),
{
    a.tenant_id.0 == b.tenant_id.0 && bytes_eq(a.span_id.0.as_slice(), b.span_id.0.as_slice())
}

/// Builds a segment with the given identifier from a stream of sorted rows. Of adjacent
/// versions of a span the one with the highest commit stays. Returns the segment, its
/// metadata and how many rows stayed, or nothing for an empty stream.
pub fn build_stream_with_id<
    S: RowSource,
    F: Fn(&[SpanRecord]) -> Result<GroupIndexes, ZenError>,
>(
    segment_id: u128,
    rows: S,
    tenant_id: TenantId,
    partition_id: PartitionId,
    schema: &Schema,
    opts: &BuildOptions,
    index: &F,
) -> (r: Result<Option<(Vec<u8>, SegmentMetadata, usize)>, ZenError>)
    requires
        rows.wf(),
        rows.rest().len() <= usize::MAX,
        index_fits(*index, schema@),
    ensures
        match r {
            Ok(Some((bytes, meta, n))) => {
                &&& rows.rest().len() > 0
                &&& is_segment_meta(
                    meta@,
                    segment_id,
                    tenant_id,
                    partition_id,
                    schema@,
                    rows.rest(),
                )
                &&& is_segment(
                    *index,
                    schema@,
                    meta@,
                    streamed_groups(rows.rest(), opts.row_group_max_rows as nat),
                    bytes@,
                )
                &&& n == streamed(rows.rest(), opts.row_group_max_rows as nat).total
            },
            Ok(None) => rows.rest().len() == 0,
            Err(e) => stream_failure(
                *index,
                *schema,
                rows.rest(),
                opts.row_group_max_rows as nat,
                e@,
            ),
        },
{
    let ghost all = rows.rest();
    let max: u32 = opts.row_group_max_rows;
    let mut source = rows;
    let mut meta = blank_meta(segment_id, tenant_id, partition_id, schema);
    let ghost blank = meta@;
    let mut assembly = Assembly::new(schema, meta.copy());
    let mut buf: Vec<SpanRecord> = Vec::new();
    let mut total: usize = 0;
    let ghost mut seen: int = 0;
    proof {
        assert(all.take(0) =~= Seq::empty());
        assert(all.skip(0) =~= all);
        assert(record_spans(buf@) =~= Seq::empty());
        assert(plain_parts(meta@, assembly.groups()).headers =~= Seq::empty());
    }
    loop
        invariant
            source.wf(),
            0 <= seen <= all.len(),
            all == rows.rest(),
            all.len() <= usize::MAX,
            source.rest() == all.skip(seen),
            max == opts.row_group_max_rows,
            index_fits(*index, schema@),
            assembly.wf(),
            assembly.columns() == schema@,
            meta@ == observed(blank, all.take(seen)),
            record_spans(buf@) == streamed(all.take(seen), max as nat).buf,
            total == streamed(all.take(seen), max as nat).total,
            groups_hold(
                *index,
                assembly.groups(),
                streamed(all.take(seen), max as nat).groups,
            ),
            total_rows(plain_parts(blank, assembly.groups()).headers) + buf@.len() == total,
        ensures
            seen == all.len(),
        decreases all.len() - seen,
    {
        let ghost before = all.take(seen);
        proof {
            lemma_streamed(before, max as nat);
        }
        match source.next() {
            None => {
                break;
            },
            Some(row) => {
                proof {
                    assert(all.take(seen + 1).drop_last() =~= before);
                    assert(all.take(seen + 1).last() == row@);
                    assert(all.skip(seen).drop_first() =~= all.skip(seen + 1));
                    lemma_streamed(all.take(seen + 1), max as nat);
                }
                let ghost s = streamed(before, max as nat);
                let ghost next = streamed(all.take(seen + 1), max as nat);
                observe(&mut meta, &row);
                let n: usize = buf.len();
                assert(record_spans(buf@).len() == n);
                if n > 0 && is_same_span(&buf[n - 1], &row) {
                    assert(s.buf.last() == buf@[n - 1]@);
                    if row.commit_id.0 > buf[n - 1].commit_id.0 {
                        buf.set(n - 1, row);
                        assert(record_spans(buf@) =~= next.buf);
                    }
                } else {
                    proof {
                        if n > 0 {
                            assert(s.buf.last() == buf@[n - 1]@);
                        }
                    }
                    if n > 0 && n as u64 >= max as u64 {
                        let ghost groups0 = assembly.groups();
                        proof {
                            let t = all.take(seen + 1);
                            lemma_streamed_prefix(all, seen + 1, max as nat);
                            assert(next.groups[groups0.len() as int] == record_spans(buf@));
                            assert(streamed(all, max as nat).groups[groups0.len() as int]
                                == record_spans(buf@));
                            assert(streamed_groups(all, max as nat)[groups0.len() as int]
                                == record_spans(buf@));
                        }
                        match assembly.add_group(buf.as_slice(), index) {
                            Ok(()) => {},
                            Err(e) => {
                                return Err(e);
                            },
                        }
                        proof {
                            let groups = assembly.groups();
                            lemma_total_rows(blank, groups);
                            assert forall|k: int| 0 <= k < groups.len() implies (
                            #[trigger] groups[k]).rows == next.groups[k] && indexed_by(
                                *index,
                                groups[k],
                            ) by {
                                if k < groups0.len() {
                                    assert(groups[k] == groups.drop_last()[k]);
                                    assert(groups0[k].rows == s.groups[k]);
                                }
                            }
                        }
                        buf = Vec::new();
                        assert(record_spans(buf@) =~= Seq::empty());
                    }
                    let ghost prev = record_spans(buf@);
                    buf.push(row);
                    total = total + 1;
                    assert(record_spans(buf@) =~= prev.push(row@));
                    assert(record_spans(buf@) =~= next.buf);
                }
                proof {
                    seen = seen + 1;
                }
            },
        }
    }
    proof {
        assert(all.take(seen) =~= all);
        lemma_streamed(all, max as nat);
    }
    let ghost s = streamed(all, max as nat);
    if buf.len() > 0 {
        let ghost groups0 = assembly.groups();
        assert(record_spans(buf@).len() == buf@.len());
        assert(streamed_groups(all, max as nat)[groups0.len() as int] == record_spans(buf@));
        match assembly.add_group(buf.as_slice(), index) {
            Ok(()) => {},
            Err(e) => {
                return Err(e);
            },
        }
        proof {
            let groups = assembly.groups();
            lemma_total_rows(blank, groups);
            assert forall|k: int| 0 <= k < groups.len() implies (#[trigger] groups[k]).rows
                == streamed_groups(all, max as nat)[k] && indexed_by(*index, groups[k]) by {
                if k < groups0.len() {
                    assert(groups[k] == groups.drop_last()[k]);
                    assert(groups0[k].rows == s.groups[k]);
                }
            }
        }
    } else {
        assert(record_spans(buf@).len() == 0);
    }
    if total == 0 {
        return Ok(None);
    }
    let ghost groups = assembly.groups();
    proof {
        assembly.lemma_groups_ok();
        assert(groups_hold(*index, groups, streamed_groups(all, max as nat)));
        assert(plain_parts(meta@, groups).headers =~= plain_parts(blank, groups).headers);
    }
    match assembly.finish(meta.copy()) {
        Ok(bytes) => {
            assert(groups_ok(schema@, groups));
            Ok(Some((bytes, meta, total)))
        },
        Err(e) => Err(e),
    }
}

/// Builds a segment from a stream of sorted rows under a fresh identifier.
pub fn build_segment_from_iter<
    S: RowSource,
    F: Fn(&[SpanRecord]) -> Result<GroupIndexes, ZenError>,
>(
    rows: S,
    tenant_id: TenantId,
    partition_id: PartitionId,
    schema: &Schema,
    opts: &BuildOptions,
    index: &F,
) -> (r: Result<Option<(Vec<u8>, SegmentMetadata, usize)>, ZenError>)
    requires
        rows.wf(),
        rows.rest().len() <= usize::MAX,
        index_fits(*index, schema@),
    ensures
        match r {
            Ok(Some((bytes, meta, n))) => {
                &&& rows.rest().len() > 0
                &&& is_segment_meta(
                    meta@,
                    meta.segment_id,
                    tenant_id,
                    partition_id,
                    schema@,
                    rows.rest(),
                )
                &&& is_segment(
                    *index,
                    schema@,
                    meta@,
                    streamed_groups(rows.rest(), opts.row_group_max_rows as nat),
                    bytes@,
                )
                &&& n == streamed(rows.rest(), opts.row_group_max_rows as nat).total
            },
            Ok(None) => rows.rest().len() == 0,
            Err(e) => stream_failure(
                *index,
                *schema,
                rows.rest(),
                opts.row_group_max_rows as nat,
                e@,
            ),
        },
{
    let ghost all = rows.rest();
    let segment_id: u128 = ulid_new();
    let r = build_stream_with_id(
        segment_id,
        rows,
        tenant_id,
        partition_id,
        schema,
        opts,
        index,
    );
    proof {
        if let Ok(Some(_)) = &r {
            let meta = (r->Ok_0->0).1;
            let blank = choose|blank: MetaView|
                #[trigger] is_blank_meta(blank, segment_id, tenant_id, partition_id, schema@)
                    && meta@ == observed(blank, all);
            lemma_observed_id(blank, all);
            assert(meta@.segment_id == segment_id);
        }
    }
    r
}

} // verus!
