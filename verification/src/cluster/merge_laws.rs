//! What merging partial results promises: rows, columns and statistics.
use crate::cluster::merge::{
    all_sums_fit, joined, limited, united, ResultStats, ResultView,
};
use vstd::prelude::*;

verus! {

/// How many rows the first `n` parts have.
pub open spec fn rows_before(parts: Seq<ResultView>, n: nat) -> nat
    decreases n,
{
    if n == 0 {
        0
    } else {
        rows_before(parts, (n - 1) as nat) + parts[n - 1].rows.len()
    }
}

proof fn lemma_rows_before_prefix(parts: Seq<ResultView>, m: nat, n: nat)
    requires
        n <= m <= parts.len(),
    ensures
        rows_before(parts.take(m as int), n) == rows_before(parts, n),
    decreases n,
{
    if n > 0 {
        lemma_rows_before_prefix(parts, m, (n - 1) as nat);
    }
}

proof fn lemma_joined_rows(parts: Seq<ResultView>, p: int, j: int)
    requires
        0 <= p < parts.len(),
        0 <= j < parts[p].rows.len(),
    ensures
        rows_before(parts, p as nat) + j < joined(parts).rows.len(),
        joined(parts).rows[rows_before(parts, p as nat) + j] == parts[p].rows[j],
    decreases parts.len(),
{
    lemma_joined_len(parts);
    let n = parts.len();
    if n > 1 {
        let head = parts.drop_last();
        lemma_joined_len(head);
        assert(head =~= parts.take(n - 1));
        lemma_rows_before_prefix(parts, (n - 1) as nat, (n - 1) as nat);
        if p < n - 1 {
            lemma_joined_rows(head, p, j);
            lemma_rows_before_prefix(parts, (n - 1) as nat, p as nat);
            assert(head[p] == parts[p]);
        }
    } else {
        assert(rows_before(parts, 0) == 0);
    }
}

proof fn lemma_joined_len(parts: Seq<ResultView>)
    ensures
        joined(parts).rows.len() == rows_before(parts, parts.len()),
    decreases parts.len(),
{
    let n = parts.len();
    if n == 1 {
        assert(rows_before(parts, 1) == rows_before(parts, 0) + parts[0].rows.len());
    } else if n > 1 {
        let head = parts.drop_last();
        assert(head =~= parts.take(n - 1));
        lemma_joined_len(head);
        lemma_rows_before_prefix(parts, (n - 1) as nat, (n - 1) as nat);
    }
}

/// The merged rows are the parts' rows one after the other: row `j` of part `p` stands
/// behind the rows of the parts before it, as long as the limit reaches that far.
pub proof fn merged_rows_keep_their_places(
    parts: Seq<ResultView>,
    limit: Option<usize>,
    p: int,
    j: int,
)
    requires
        0 <= p < parts.len(),
        0 <= j < parts[p].rows.len(),
        limit matches Some(n) ==> rows_before(parts, p as nat) + j < n,
    ensures
        rows_before(parts, p as nat) + j < limited(joined(parts), limit).rows.len(),
        limited(joined(parts), limit).rows[rows_before(parts, p as nat) + j] == parts[p].rows[j],
{
    lemma_joined_rows(parts, p, j);
}

/// The merged result has all rows of the parts, or as many as the limit allows.
pub proof fn merged_rows_are_counted(parts: Seq<ResultView>, limit: Option<usize>)
    ensures
        limit is None ==> limited(joined(parts), limit).rows.len() == rows_before(
            parts,
            parts.len(),
        ),
        limit matches Some(n) ==> {
            let total = rows_before(parts, parts.len());
            limited(joined(parts), limit).rows.len() == (if total < n {
                total as int
            } else {
                n as int
            })
        },
{
    lemma_joined_len(parts);
}

/// A lower limit gives a beginning of what a higher one gives, and columns do not depend on
/// the limit.
pub proof fn limits_cut_at_the_end(parts: Seq<ResultView>, a: usize, b: Option<usize>)
    requires
        b matches Some(n) ==> a <= n,
    ensures
        limited(joined(parts), Some(a)).rows.is_prefix_of(limited(joined(parts), b).rows),
        limited(joined(parts), Some(a)).columns == limited(joined(parts), b).columns,
{
    let rows = joined(parts).rows;
    let short = limited(joined(parts), Some(a)).rows;
    let long = limited(joined(parts), b).rows;
    assert(short =~= long.subrange(0, short.len() as int));
}

proof fn lemma_united(columns: Seq<Seq<char>>, more: Seq<Seq<char>>)
    ensures
        columns.len() <= united(columns, more).len(),
        forall|i: int| 0 <= i < columns.len() ==> united(columns, more)[i] == #[trigger] columns[i],
        forall|i: int| 0 <= i < more.len() ==> united(columns, more).contains(#[trigger] more[i]),
        forall|i: int|
            columns.len() <= i < united(columns, more).len() ==> more.contains(
                #[trigger] united(columns, more)[i],
            ),
        columns.no_duplicates() ==> united(columns, more).no_duplicates(),
    decreases more.len(),
{
    if more.len() > 0 {
        let head = more.drop_last();
        lemma_united(columns, head);
        let c = united(columns, head);
        let r = united(columns, more);
        assert forall|i: int| 0 <= i < more.len() implies r.contains(#[trigger] more[i]) by {
            if i < head.len() {
                assert(head[i] == more[i]);
                let k = choose|k: int| 0 <= k < c.len() && c[k] == head[i];
                assert(r[k] == more[i]);
            } else if !c.contains(more.last()) {
                assert(r[c.len() as int] == more[i]);
            }
        }
        assert forall|i: int| columns.len() <= i < r.len() implies more.contains(
            #[trigger] r[i],
        ) by {
            if i < c.len() {
                assert(r[i] == c[i]);
                let k = choose|k: int| 0 <= k < head.len() && head[k] == c[i];
                assert(more[k] == r[i]);
            } else {
                assert(more[more.len() - 1] == r[i]);
            }
        }
    }
}

/// The merged columns begin with those of the first part, hold the columns of every part and
/// no others, and name none twice unless the first part does.
pub proof fn merged_columns_are_united(parts: Seq<ResultView>, limit: Option<usize>)
    requires
        parts.len() > 0,
    ensures
        parts[0].columns.is_prefix_of(limited(joined(parts), limit).columns),
        forall|p: int, i: int|
            #![trigger parts[p].columns[i]]
            0 <= p < parts.len() && 0 <= i < parts[p].columns.len() ==> limited(
                joined(parts),
                limit,
            ).columns.contains(parts[p].columns[i]),
        forall|i: int|
            0 <= i < limited(joined(parts), limit).columns.len() ==> some_part_has(
                parts,
                #[trigger] limited(joined(parts), limit).columns[i],
            ),
        parts[0].columns.no_duplicates() ==> limited(
            joined(parts),
            limit,
        ).columns.no_duplicates(),
    decreases parts.len(),
{
    let r = joined(parts).columns;
    assert(limited(joined(parts), limit).columns == r);
    if parts.len() == 1 {
        assert(r =~= r.subrange(0, r.len() as int));
        assert forall|i: int| 0 <= i < r.len() implies some_part_has(parts, #[trigger] r[i]) by {
            assert(parts[0].columns.contains(r[i]));
        }
    } else {
        let head = parts.drop_last();
        merged_columns_are_united(head, None);
        let a = joined(head).columns;
        let b = parts.last().columns;
        lemma_united(a, b);
        assert(head[0] == parts[0]);
        assert(parts[0].columns =~= r.subrange(0, parts[0].columns.len() as int)) by {
            assert(parts[0].columns =~= a.subrange(0, parts[0].columns.len() as int));
            assert forall|i: int| 0 <= i < parts[0].columns.len() implies parts[0].columns[i]
                == r[i] by {
                assert(a.subrange(0, parts[0].columns.len() as int)[i] == a[i]);
            }
        }
        assert forall|p: int, i: int|
            #![trigger parts[p].columns[i]]
            0 <= p < parts.len() && 0 <= i < parts[p].columns.len() implies r.contains(
            parts[p].columns[i],
        ) by {
            if p < head.len() {
                assert(head[p] == parts[p]);
                assert(a.contains(head[p].columns[i]));
                let k = choose|k: int| 0 <= k < a.len() && a[k] == parts[p].columns[i];
                assert(r[k] == a[k]);
            }
        }
        assert forall|i: int| 0 <= i < r.len() implies some_part_has(parts, #[trigger] r[i]) by {
            if i < a.len() {
                assert(r[i] == a[i]);
                assert(limited(joined(head), None).columns[i] == a[i]);
                assert(some_part_has(head, a[i]));
                let p = choose|p: int|
                    0 <= p < head.len() && (#[trigger] head[p]).columns.contains(a[i]);
                assert(parts[p].columns.contains(r[i]));
            } else {
                assert(parts[parts.len() - 1].columns.contains(r[i]));
            }
        }
    }
}

/// Some part has the column.
pub open spec fn some_part_has(parts: Seq<ResultView>, column: Seq<char>) -> bool {
    exists|p: int| 0 <= p < parts.len() && (#[trigger] parts[p]).columns.contains(column)
}

/// The sum of a count over the parts.
pub open spec fn total_of(parts: Seq<ResultView>, count: spec_fn(ResultStats) -> nat) -> nat
    decreases parts.len(),
{
    if parts.len() == 0 {
        0
    } else {
        total_of(parts.drop_last(), count) + count(parts.last().stats)
    }
}

/// The counts of the merged result are the sums of the parts' counts. The number of rows is
/// that of the rows that are left, where the limit cuts some off.
pub proof fn merged_counts_are_sums(parts: Seq<ResultView>, limit: Option<usize>)
    requires
        all_sums_fit(parts),
    ensures
        limited(joined(parts), limit).stats.segments_scanned == total_of(
            parts,
            |s: ResultStats| s.segments_scanned as nat,
        ),
        limited(joined(parts), limit).stats.row_groups_pruned == total_of(
            parts,
            |s: ResultStats| s.row_groups_pruned as nat,
        ),
        limited(joined(parts), limit).stats.row_groups_scanned == total_of(
            parts,
            |s: ResultStats| s.row_groups_scanned as nat,
        ),
        limited(joined(parts), limit).stats.bytes_decoded_wide == total_of(
            parts,
            |s: ResultStats| s.bytes_decoded_wide as nat,
        ),
        (limit matches Some(n) ==> rows_before(parts, parts.len()) <= n) ==> limited(
            joined(parts),
            limit,
        ).stats.rows_returned == total_of(parts, |s: ResultStats| s.rows_returned as nat),
        limit matches Some(n) ==> rows_before(parts, parts.len()) > n && n <= u32::MAX ==> limited(
            joined(parts),
            limit,
        ).stats.rows_returned == limited(joined(parts), limit).rows.len(),
    decreases parts.len(),
{
    lemma_joined_len(parts);
    reveal_with_fuel(total_of, 2);
    if parts.len() > 1 {
        merged_counts_are_sums(parts.drop_last(), None);
    }
}

/// The merged time is the longest of the parts' times.
pub proof fn merged_time_is_the_longest(parts: Seq<ResultView>, limit: Option<usize>)
    ensures
        forall|p: int|
            0 <= p < parts.len() ==> (#[trigger] parts[p]).stats.elapsed_ms <= limited(
                joined(parts),
                limit,
            ).stats.elapsed_ms,
        parts.len() > 0 ==> exists|p: int|
            0 <= p < parts.len() && (#[trigger] parts[p]).stats.elapsed_ms == limited(
                joined(parts),
                limit,
            ).stats.elapsed_ms,
    decreases parts.len(),
{
    let n = parts.len() as int;
    if n > 1 {
        let head = parts.drop_last();
        merged_time_is_the_longest(head, None);
        assert forall|p: int| 0 <= p < n implies (#[trigger] parts[p]).stats.elapsed_ms <= joined(
            parts,
        ).stats.elapsed_ms by {
            if p < n - 1 {
                assert(head[p] == parts[p]);
            }
        }
        let q = choose|p: int|
            0 <= p < head.len() && (#[trigger] head[p]).stats.elapsed_ms == joined(
                head,
            ).stats.elapsed_ms;
        assert(head[q] == parts[q]);
        assert(parts[q].stats.elapsed_ms == joined(parts).stats.elapsed_ms || parts[n
            - 1].stats.elapsed_ms == joined(parts).stats.elapsed_ms);
    } else if n == 1 {
        assert(parts[0].stats.elapsed_ms == joined(parts).stats.elapsed_ms);
    }
}

} // verus!
