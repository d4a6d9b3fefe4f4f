//! What the recorded bounds of log objects and row groups say of the rows behind them.
use crate::common::record::Span;
use crate::common::schema::ColumnView;
use crate::compactor::batch_laws::{lemma_first_named, lemma_log_columns, logged};
use crate::compactor::builder::column_names;
use crate::compactor::field_laws::same_word;
use crate::compactor::sparse::{
    are_group_keys, entry_named, is_hotcache_key, key_holds, padded, range_named, rows_by_group,
    RowGroupKey,
};
use crate::compactor::wal_meta::{
    has_commit, has_time, has_trace, holds, holds_id, is_wal_metadata, WalBatchMetadata,
};
use crate::compactor::zone_laws::{
    id_ranges_span_their_fields, number_ranges_span_their_fields, spans_bytes, spans_numbers,
};
use crate::compactor::zones::is_zone;
use crate::format::hotcache::{ColumnEntryView, GroupEntryView};
use crate::format::row_group::HeaderView;
use crate::format::zone_map::RangeView;
use crate::order::lex_le;
use vstd::prelude::*;

verus! {

proof fn lemma_logged_commits(rows: Seq<Span>)
    ensures
        logged(rows).u64s("commit_id"@) == Some(
            Seq::new(rows.len(), |i: int| (false, rows[i].commit_id.0)),
        ),
{
    lemma_log_columns(rows, 25);
    lemma_first_named(logged(rows).columns, 25);
    assert(logged(rows).u64s("commit_id"@)->0 =~= Seq::new(
        rows.len(),
        |i: int| (false, rows[i].commit_id.0),
    ));
}

proof fn lemma_logged_times(rows: Seq<Span>)
    ensures
        logged(rows).i64s("start_time_ms"@) == Some(
            Seq::new(rows.len(), |i: int| (false, rows[i].start_time_ms)),
        ),
{
    lemma_log_columns(rows, 5);
    lemma_first_named(logged(rows).columns, 5);
    assert(logged(rows).i64s("start_time_ms"@)->0 =~= Seq::new(
        rows.len(),
        |i: int| (false, rows[i].start_time_ms),
    ));
}

proof fn lemma_logged_traces(rows: Seq<Span>)
    ensures
        logged(rows).fixeds("trace_id"@) == Some(
            Seq::new(rows.len(), |i: int| (false, rows[i].trace_id)),
        ),
{
    lemma_log_columns(rows, 2);
    lemma_first_named(logged(rows).columns, 2);
    assert(logged(rows).fixeds("trace_id"@)->0 =~= Seq::new(
        rows.len(),
        |i: int| (false, rows[i].trace_id),
    ));
}

/// The bounds of a logged batch are known if some row has a commit number below the greatest
/// there is.
pub proof fn logged_bounds_are_known(rows: Seq<Span>)
    ensures
        has_commit(logged(rows)) <==> exists|i: int|
            0 <= i < rows.len() && (#[trigger] rows[i]).commit_id.0 != u64::MAX,
{
    lemma_logged_commits(rows);
    let col = logged(rows).u64s("commit_id"@)->0;
    if has_commit(logged(rows)) {
        let v = choose|v: u64| #[trigger] holds(col, v) && v != u64::MAX;
        let i = choose|i: int| 0 <= i < col.len() && #[trigger] col[i] == (false, v);
        assert(rows[i].commit_id.0 != u64::MAX);
    }
    if exists|i: int| 0 <= i < rows.len() && (#[trigger] rows[i]).commit_id.0 != u64::MAX {
        let i = choose|i: int| 0 <= i < rows.len() && (#[trigger] rows[i]).commit_id.0 != u64::MAX;
        assert(col[i] == (false, rows[i].commit_id.0));
        assert(holds(col, rows[i].commit_id.0));
    }
}

/// The commits of a logged batch lie between the recorded bounds, and reach both.
pub proof fn logged_commits_are_bounded(rows: Seq<Span>, m: WalBatchMetadata)
    requires
        is_wal_metadata(logged(rows), m),
    ensures
        forall|i: int|
            0 <= i < rows.len() ==> m.commit_id_min.0 <= (#[trigger] rows[i]).commit_id.0
                <= m.commit_id_max.0,
        exists|i: int| 0 <= i < rows.len() && (#[trigger] rows[i]).commit_id == m.commit_id_min,
        exists|i: int| 0 <= i < rows.len() && (#[trigger] rows[i]).commit_id == m.commit_id_max,
{
    lemma_logged_commits(rows);
    let col = logged(rows).u64s("commit_id"@)->0;
    assert forall|i: int| 0 <= i < rows.len() implies m.commit_id_min.0 <= (
    #[trigger] rows[i]).commit_id.0 <= m.commit_id_max.0 by {
        assert(col[i] == (false, rows[i].commit_id.0));
        assert(holds(col, rows[i].commit_id.0));
    }
    let a = choose|i: int| 0 <= i < col.len() && #[trigger] col[i] == (false, m.commit_id_min.0);
    let b = choose|i: int| 0 <= i < col.len() && #[trigger] col[i] == (false, m.commit_id_max.0);
    assert(rows[a].commit_id == m.commit_id_min);
    assert(rows[b].commit_id == m.commit_id_max);
}

/// The start times of a logged batch lie between the recorded bounds, and reach both where
/// one of them is below the greatest there is.
pub proof fn logged_times_are_bounded(rows: Seq<Span>, m: WalBatchMetadata)
    requires
        is_wal_metadata(logged(rows), m),
    ensures
        forall|i: int|
            0 <= i < rows.len() ==> m.time_min <= (#[trigger] rows[i]).start_time_ms <= m.time_max,
        (exists|i: int| 0 <= i < rows.len() && (#[trigger] rows[i]).start_time_ms != i64::MAX)
            ==> (exists|i: int| 0 <= i < rows.len() && (#[trigger] rows[i]).start_time_ms == m.time_min)
            && (exists|i: int| 0 <= i < rows.len() && (#[trigger] rows[i]).start_time_ms == m.time_max),
{
    lemma_logged_times(rows);
    let b = logged(rows);
    let col = b.i64s("start_time_ms"@)->0;
    assert forall|i: int| 0 <= i < rows.len() implies m.time_min <= (
    #[trigger] rows[i]).start_time_ms <= m.time_max by {
        assert(col[i] == (false, rows[i].start_time_ms));
        assert(holds(col, rows[i].start_time_ms));
    }
    if exists|i: int| 0 <= i < rows.len() && (#[trigger] rows[i]).start_time_ms != i64::MAX {
        let i = choose|i: int| 0 <= i < rows.len() && (#[trigger] rows[i]).start_time_ms != i64::MAX;
        assert(col[i] == (false, rows[i].start_time_ms));
        assert(holds(col, rows[i].start_time_ms));
        assert(has_time(b));
        let x = choose|i: int| 0 <= i < col.len() && #[trigger] col[i] == (false, m.time_min);
        let y = choose|i: int| 0 <= i < col.len() && #[trigger] col[i] == (false, m.time_max);
        assert(rows[x].start_time_ms == m.time_min);
        assert(rows[y].start_time_ms == m.time_max);
    }
}

/// The traces of a logged batch lie between the recorded bounds, and reach both.
pub proof fn logged_traces_are_bounded(rows: Seq<Span>, m: WalBatchMetadata)
    requires
        is_wal_metadata(logged(rows), m),
        rows.len() > 0,
        forall|i: int| 0 <= i < rows.len() ==> (#[trigger] rows[i]).trace_id.len() == 16,
    ensures
        forall|i: int|
            0 <= i < rows.len() ==> lex_le(m.trace_id_min.0@, (#[trigger] rows[i]).trace_id)
                && lex_le(rows[i].trace_id, m.trace_id_max.0@),
        exists|i: int| 0 <= i < rows.len() && (#[trigger] rows[i]).trace_id == m.trace_id_min.0@,
        exists|i: int| 0 <= i < rows.len() && (#[trigger] rows[i]).trace_id == m.trace_id_max.0@,
{
    lemma_logged_traces(rows);
    let b = logged(rows);
    let col = b.fixeds("trace_id"@)->0;
    assert forall|i: int| 0 <= i < rows.len() implies #[trigger] holds_id(col, rows[i].trace_id) by {
        assert(col[i] == (false, rows[i].trace_id));
        assert(holds(col, rows[i].trace_id));
    }
    assert(holds_id(col, rows[0].trace_id));
    assert(has_trace(b));
    assert forall|i: int| 0 <= i < rows.len() implies lex_le(
        m.trace_id_min.0@,
        (#[trigger] rows[i]).trace_id,
    ) && lex_le(rows[i].trace_id, m.trace_id_max.0@) by {
        assert(holds_id(col, rows[i].trace_id));
    }
    let x = choose|i: int| 0 <= i < col.len() && #[trigger] col[i] == (false, m.trace_id_min.0@);
    let y = choose|i: int| 0 <= i < col.len() && #[trigger] col[i] == (false, m.trace_id_max.0@);
    assert(rows[x].trace_id == m.trace_id_min.0@);
    assert(rows[y].trace_id == m.trace_id_max.0@);
}

/// How many rows the first `n` row groups have.
pub open spec fn group_rows_before(groups: Seq<HeaderView>, n: nat) -> nat
    decreases n,
{
    if n == 0 {
        0
    } else {
        group_rows_before(groups, (n - 1) as nat) + groups[n - 1].row_count as nat
    }
}

proof fn lemma_group_rows_shift(groups: Seq<HeaderView>, n: nat)
    requires
        n < groups.len(),
    ensures
        group_rows_before(groups, n + 1) == groups[0].row_count + group_rows_before(
            groups.drop_first(),
            n,
        ),
    decreases n,
{
    if n > 0 {
        lemma_group_rows_shift(groups, (n - 1) as nat);
        assert(groups.drop_first()[n - 1] == groups[n as int]);
    } else {
        assert(group_rows_before(groups, 1) == group_rows_before(groups, 0) + groups[0].row_count);
    }
}

/// Where the groups have rows and together exactly those of the list, each group's rows are
/// those behind the rows of the groups before it.
proof fn lemma_rows_by_group(rows: Seq<Span>, groups: Seq<HeaderView>, k: int)
    requires
        0 <= k < groups.len(),
        forall|g: int| 0 <= g < groups.len() ==> (#[trigger] groups[g]).row_count > 0,
        group_rows_before(groups, groups.len()) == rows.len(),
    ensures
        rows_by_group(rows, groups).len() == groups.len(),
        group_rows_before(groups, (k + 1) as nat) <= rows.len(),
        rows_by_group(rows, groups)[k] == rows.subrange(
            group_rows_before(groups, k as nat) as int,
            group_rows_before(groups, (k + 1) as nat) as int,
        ),
    decreases groups.len(),
{
    let n = groups[0].row_count as int;
    let tail = groups.drop_first();
    lemma_group_rows_shift(groups, (groups.len() - 1) as nat);
    lemma_group_rows_grow(groups, (k + 1) as nat, groups.len());
    lemma_group_rows_grow(groups, 1, groups.len());
    assert(group_rows_before(groups, 1) == group_rows_before(groups, 0) + n);
    let rest = rows.skip(n);
    assert forall|g: int| 0 <= g < tail.len() implies (#[trigger] tail[g]).row_count > 0 by {
        assert(tail[g] == groups[g + 1]);
    }
    if tail.len() > 0 {
        lemma_rows_by_group(rest, tail, if k > 0 { k - 1 } else { 0 });
    } else {
        assert(rows_by_group(rest, tail) =~= Seq::empty());
    }
    if k == 0 {
        assert(rows.take(n) =~= rows.subrange(0, n));
    } else {
        lemma_group_rows_shift(groups, (k - 1) as nat);
        lemma_group_rows_shift(groups, k as nat);
        let a = group_rows_before(tail, (k - 1) as nat) as int;
        let b = group_rows_before(tail, k as nat) as int;
        lemma_group_rows_grow(tail, (k - 1) as nat, k as nat);
        assert(rest.subrange(a, b) =~= rows.subrange(n + a, n + b));
    }
}

proof fn lemma_group_rows_grow(groups: Seq<HeaderView>, a: nat, b: nat)
    requires
        a <= b <= groups.len(),
    ensures
        group_rows_before(groups, a) <= group_rows_before(groups, b),
    decreases b - a,
{
    if a < b {
        lemma_group_rows_grow(groups, a, (b - 1) as nat);
    }
}

/// The key of row group `k` is about the group's own rows: it holds the trace, the start time
/// and the commit of each of them, and each of its bounds is that of one of them.
pub proof fn group_keys_span_their_rows(
    rows: Seq<Span>,
    groups: Seq<HeaderView>,
    keys: Seq<RowGroupKey>,
    k: int,
)
    requires
        are_group_keys(rows_by_group(rows, groups), keys),
        0 <= k < groups.len(),
        forall|g: int| 0 <= g < groups.len() ==> (#[trigger] groups[g]).row_count > 0,
        group_rows_before(groups, groups.len()) == rows.len(),
    ensures
        keys.len() == groups.len(),
        ({
            let from = group_rows_before(groups, k as nat) as int;
            let to = group_rows_before(groups, (k + 1) as nat) as int;
            let key = keys[k];
            &&& 0 <= from < to <= rows.len()
            &&& forall|i: int| from <= i < to ==> lex_le(key.min_trace_id@, (#[trigger] rows[i]).trace_id)
                && lex_le(rows[i].trace_id, key.max_trace_id@)
            &&& forall|i: int| from <= i < to ==> key.min_start_time <= (#[trigger] rows[i]).start_time_ms
                && rows[i].start_time_ms <= key.max_start_time
            &&& forall|i: int| from <= i < to ==> key.min_commit_id <= (#[trigger] rows[i]).commit_id.0
                && rows[i].commit_id.0 <= key.max_commit_id
            &&& exists|i: int| from <= i < to && (#[trigger] rows[i]).trace_id == key.min_trace_id@
            &&& exists|i: int| from <= i < to && (#[trigger] rows[i]).trace_id == key.max_trace_id@
            &&& exists|i: int| from <= i < to && (#[trigger] rows[i]).start_time_ms == key.min_start_time
            &&& exists|i: int| from <= i < to && (#[trigger] rows[i]).start_time_ms == key.max_start_time
            &&& exists|i: int| from <= i < to && (#[trigger] rows[i]).commit_id.0 == key.min_commit_id
            &&& exists|i: int| from <= i < to && (#[trigger] rows[i]).commit_id.0 == key.max_commit_id
        }),
{
    lemma_rows_by_group(rows, groups, k);
    let from = group_rows_before(groups, k as nat) as int;
    let to = group_rows_before(groups, (k + 1) as nat) as int;
    let own = rows.subrange(from, to);
    let key = keys[k];
    assert(crate::compactor::sparse::is_group_key(own, key));
    assert forall|i: int| from <= i < to implies key_holds(key, #[trigger] rows[i]) by {
        assert(own[i - from] == rows[i]);
    }
    let a = choose|i: int| 0 <= i < own.len() && (#[trigger] own[i]).trace_id == key.min_trace_id@;
    let b = choose|i: int| 0 <= i < own.len() && (#[trigger] own[i]).trace_id == key.max_trace_id@;
    let c = choose|i: int| 0 <= i < own.len() && (#[trigger] own[i]).start_time_ms == key.min_start_time;
    let d = choose|i: int| 0 <= i < own.len() && (#[trigger] own[i]).start_time_ms == key.max_start_time;
    let e = choose|i: int| 0 <= i < own.len() && (#[trigger] own[i]).commit_id.0 == key.min_commit_id;
    let f = choose|i: int| 0 <= i < own.len() && (#[trigger] own[i]).commit_id.0 == key.max_commit_id;
    assert(rows[from + a].trace_id == key.min_trace_id@);
    assert(rows[from + b].trace_id == key.max_trace_id@);
    assert(rows[from + c].start_time_ms == key.min_start_time);
    assert(rows[from + d].start_time_ms == key.max_start_time);
    assert(rows[from + e].commit_id.0 == key.min_commit_id);
    assert(rows[from + f].commit_id.0 == key.max_commit_id);
}

/// The entries give the ranges of the columns, one after the other.
pub open spec fn are_column_ranges(
    columns: Seq<ColumnView>,
    rows: Seq<Span>,
    entries: Seq<ColumnEntryView>,
) -> bool {
    &&& entries.len() == columns.len()
    &&& forall|i: int|
        0 <= i < entries.len() ==> (#[trigger] entries[i]).column_idx == i && is_zone(
            columns[i].name,
            rows,
            entries[i].zone_map,
        )
}

proof fn lemma_range_named(
    names: Seq<Seq<char>>,
    all: Seq<ColumnEntryView>,
    from: int,
    c: int,
)
    requires
        0 <= from <= c < all.len(),
        all.len() == names.len(),
        forall|i: int| 0 <= i < all.len() ==> (#[trigger] all[i]).column_idx == i,
        forall|i: int| 0 <= i < c ==> #[trigger] names[i] != names[c],
    ensures
        range_named(names, all.skip(from), names[c]) == all[c].zone_map.value,
    decreases c - from,
{
    let here = all.skip(from);
    assert(here[0] == all[from]);
    assert(all[from].column_idx == from);
    if from < c {
        assert(!entry_named(names, here[0], names[c]));
        assert(here.drop_first() =~= all.skip(from + 1));
        lemma_range_named(names, all, from + 1, c);
    }
}

/// The key that a hotcache entry gives for a row group holds every row of the group, where the
/// schema has columns for traces, start times and commits and the commits are below the middle
/// of the 64-bit range; its bounds are those of rows.
pub proof fn hotcache_keys_span_their_rows(
    columns: Seq<ColumnView>,
    rows: Seq<Span>,
    entry: GroupEntryView,
    key: RowGroupKey,
    trace: int,
    start: int,
    commit: int,
)
    requires
        rows.len() > 0,
        are_column_ranges(columns, rows, entry.columns),
        is_hotcache_key(column_names(columns), entry, key),
        0 <= trace < columns.len() <= u32::MAX,
        0 <= start < columns.len(),
        0 <= commit < columns.len(),
        columns[trace].name == "trace_id"@,
        columns[start].name == "start_time_ms"@,
        columns[commit].name == "commit_id"@,
        forall|i: int, j: int|
            0 <= i < j < columns.len() ==> (#[trigger] columns[i]).name != (#[trigger] columns[j]).name,
        forall|i: int| 0 <= i < rows.len() ==> (#[trigger] rows[i]).trace_id.len() == 16,
        forall|i: int| 0 <= i < rows.len() ==> (#[trigger] rows[i]).commit_id.0 <= i64::MAX,
    ensures
        forall|i: int|
            0 <= i < rows.len() ==> lex_le(key.min_trace_id@, (#[trigger] rows[i]).trace_id) && lex_le(
                rows[i].trace_id,
                key.max_trace_id@,
            ),
        forall|i: int|
            0 <= i < rows.len() ==> key.min_start_time <= (#[trigger] rows[i]).start_time_ms
                <= key.max_start_time,
        forall|i: int|
            0 <= i < rows.len() ==> key.min_commit_id <= (#[trigger] rows[i]).commit_id.0
                <= key.max_commit_id,
        exists|i: int| 0 <= i < rows.len() && (#[trigger] rows[i]).trace_id == key.min_trace_id@,
        exists|i: int| 0 <= i < rows.len() && (#[trigger] rows[i]).trace_id == key.max_trace_id@,
        exists|i: int| 0 <= i < rows.len() && (#[trigger] rows[i]).start_time_ms == key.min_start_time,
        exists|i: int| 0 <= i < rows.len() && (#[trigger] rows[i]).start_time_ms == key.max_start_time,
        exists|i: int| 0 <= i < rows.len() && (#[trigger] rows[i]).commit_id.0 == key.min_commit_id,
        exists|i: int| 0 <= i < rows.len() && (#[trigger] rows[i]).commit_id.0 == key.max_commit_id,
{
    let names = column_names(columns);
    let all = entry.columns;
    assert(all.skip(0) =~= all);
    assert forall|c: int, i: int| 0 <= i < c < names.len() implies #[trigger] names[i]
        != #[trigger] names[c] by {
        assert(columns[i].name != columns[c].name);
    }
    lemma_range_named(names, all, 0, trace);
    lemma_range_named(names, all, 0, start);
    lemma_range_named(names, all, 0, commit);
    assert(all[trace].column_idx == trace);
    assert(all[start].column_idx == start);
    assert(all[commit].column_idx == commit);
    id_ranges_span_their_fields("trace_id"@, rows, all[trace].zone_map);
    number_ranges_span_their_fields("start_time_ms"@, rows, all[start].zone_map);
    number_ranges_span_their_fields("commit_id"@, rows, all[commit].zone_map);
    let min = all[trace].zone_map.value->Fixed_min;
    let max = all[trace].zone_map.value->Fixed_max;
    assert(spans_bytes(min, max, rows, |s: Span| s.trace_id));
    assert(padded(min) =~= min);
    assert(padded(max) =~= max);
    lemma_numbers(
        all[start].zone_map.value,
        rows,
        |s: Span, v: int| v == s.start_time_ms,
        |s: Span| s.start_time_ms,
    );
    lemma_numbers(
        all[commit].zone_map.value,
        rows,
        |s: Span, v: int| same_word(s.commit_id.0, v),
        |s: Span| s.commit_id.0 as i64,
    );
    let lo = all[commit].zone_map.value->I64_min;
    let hi = all[commit].zone_map.value->I64_max;
    let f = |s: Span| s.commit_id.0 as i64;
    let a = choose|i: int| 0 <= i < rows.len() && f(#[trigger] rows[i]) == lo;
    let b = choose|i: int| 0 <= i < rows.len() && f(#[trigger] rows[i]) == hi;
    assert(rows[a].commit_id.0 == key.min_commit_id);
    assert(rows[b].commit_id.0 == key.max_commit_id);
    assert forall|i: int| 0 <= i < rows.len() implies key.min_commit_id <= (
    #[trigger] rows[i]).commit_id.0 <= key.max_commit_id by {
        assert(lo <= f(rows[i]) <= hi);
    }
    let t = |s: Span| s.start_time_ms;
    let x = choose|i: int| 0 <= i < rows.len() && t(#[trigger] rows[i]) == key.min_start_time;
    let y = choose|i: int| 0 <= i < rows.len() && t(#[trigger] rows[i]) == key.max_start_time;
    assert(rows[x].start_time_ms == key.min_start_time);
    assert(rows[y].start_time_ms == key.max_start_time);
    assert forall|i: int| 0 <= i < rows.len() implies key.min_start_time <= (
    #[trigger] rows[i]).start_time_ms <= key.max_start_time by {
        assert(key.min_start_time <= t(rows[i]) <= key.max_start_time);
    }
}

proof fn lemma_numbers(
    z: RangeView,
    rows: Seq<Span>,
    rel: spec_fn(Span, int) -> bool,
    value: spec_fn(Span) -> i64,
)
    requires
        spans_numbers(z, rows, rel),
        forall|i: int, v: i64|
            0 <= i < rows.len() ==> (#[trigger] rel(rows[i], v as int) <==> v == value(rows[i])),
    ensures
        z matches RangeView::I64 { min, max } && (forall|i: int|
            0 <= i < rows.len() ==> min <= value(#[trigger] rows[i]) <= max) && (exists|i: int|
            0 <= i < rows.len() && value(#[trigger] rows[i]) == min) && (exists|i: int|
            0 <= i < rows.len() && value(#[trigger] rows[i]) == max),
{
    let min = z->I64_min;
    let max = z->I64_max;
    assert forall|i: int| 0 <= i < rows.len() implies min <= value(#[trigger] rows[i]) <= max by {
        assert(rel(rows[i], value(rows[i]) as int));
    }
    let a = choose|i: int| 0 <= i < rows.len() && #[trigger] rel(rows[i], min as int);
    let b = choose|i: int| 0 <= i < rows.len() && #[trigger] rel(rows[i], max as int);
    assert(value(rows[a]) == min);
    assert(value(rows[b]) == max);
}

/// A bound is taken as it is, and a shorter one is filled up with zeros to sixteen bytes.
pub proof fn short_bounds_are_filled_up(b: Seq<u8>, i: int)
    requires
        b.len() <= 16,
        0 <= i < 16,
    ensures
        padded(b).len() == 16,
        padded(b).take(b.len() as int) == b,
        i >= b.len() ==> padded(b)[i] == 0,
{
    assert(padded(b).take(b.len() as int) =~= b);
}

} // verus!
