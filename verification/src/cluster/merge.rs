//! Combining partial results from remote workers into one.
//!
//! Rows are concatenated up to a limit and the statistics summed. Queries across shards
//! that group rows send partial aggregates, which the planner combines.
use crate::cursor::string_views;
use crate::text::text_eq;
use vstd::prelude::*;
use vstd::string::*;

verus! {

/// What a query cost.
#[derive(Copy, Clone, Debug, PartialEq, Eq, Structural)]
pub struct ResultStats {
    pub segments_scanned: u32,
    pub row_groups_pruned: u32,
    pub row_groups_scanned: u32,
    pub rows_returned: u32,
    pub elapsed_ms: u64,
    pub bytes_decoded_wide: u64,
}

/// The statistics of no query.
pub open spec fn zero_stats() -> ResultStats {
    ResultStats {
        segments_scanned: 0,
        row_groups_pruned: 0,
        row_groups_scanned: 0,
        rows_returned: 0,
        elapsed_ms: 0,
        bytes_decoded_wide: 0,
    }
}

/// A result row: the fields by name, each as JSON text.
#[derive(Clone, Debug)]
pub struct ResultRow {
    pub fields: Vec<(String, Vec<u8>)>,
}

/// Columns, rows and statistics of a query.
pub struct ResultSet {
    pub columns: Vec<String>,
    pub rows: Vec<ResultRow>,
    pub stats: ResultStats,
}

/// The content of a result.
#[verifier::ext_equal]
pub ghost struct ResultView {
    pub columns: Seq<Seq<char>>,
    pub rows: Seq<ResultRow>,
    pub stats: ResultStats,
}

impl ResultSet {
    pub open spec fn view(&self) -> ResultView {
        ResultView { columns: string_views(self.columns@), rows: self.rows@, stats: self.stats }
    }
}

impl Default for ResultSet {
    fn default() -> (r: Self)
        ensures
            r@ == (ResultView {
                columns: Seq::empty(),
                rows: Seq::empty(),
                stats: zero_stats(),
            }),
    {
        let r = ResultSet {
            columns: Vec::new(),
            rows: Vec::new(),
            stats: ResultStats {
                segments_scanned: 0,
                row_groups_pruned: 0,
                row_groups_scanned: 0,
                rows_returned: 0,
                elapsed_ms: 0,
                bytes_decoded_wide: 0,
            },
        };
        assert(r@.columns =~= Seq::empty());
        r
    }
}

/// The columns with those appended that are new, in order.
pub open spec fn united(columns: Seq<Seq<char>>, more: Seq<Seq<char>>) -> Seq<Seq<char>>
    decreases more.len(),
{
    if more.len() == 0 {
        columns
    } else {
        let c = united(columns, more.drop_last());
        if c.contains(more.last()) {
            c
        } else {
            c.push(more.last())
        }
    }
}

/// The sums of two statistics; the time is the longer one.
pub open spec fn summed(a: ResultStats, b: ResultStats) -> ResultStats {
    ResultStats {
        segments_scanned: (a.segments_scanned + b.segments_scanned) as u32,
        row_groups_pruned: (a.row_groups_pruned + b.row_groups_pruned) as u32,
        row_groups_scanned: (a.row_groups_scanned + b.row_groups_scanned) as u32,
        rows_returned: (a.rows_returned + b.rows_returned) as u32,
        elapsed_ms: if a.elapsed_ms >= b.elapsed_ms { a.elapsed_ms } else { b.elapsed_ms },
        bytes_decoded_wide: (a.bytes_decoded_wide + b.bytes_decoded_wide) as u64,
    }
}

/// The sums stay within their types.
pub open spec fn sums_fit(a: ResultStats, b: ResultStats) -> bool {
    &&& a.segments_scanned + b.segments_scanned <= u32::MAX
    &&& a.row_groups_pruned + b.row_groups_pruned <= u32::MAX
    &&& a.row_groups_scanned + b.row_groups_scanned <= u32::MAX
    &&& a.rows_returned + b.rows_returned <= u32::MAX
    &&& a.bytes_decoded_wide + b.bytes_decoded_wide <= u64::MAX
}

/// The parts joined: rows one after the other, new columns appended, statistics summed.
pub open spec fn joined(parts: Seq<ResultView>) -> ResultView
    decreases parts.len(),
{
    if parts.len() == 0 {
        ResultView { columns: Seq::empty(), rows: Seq::empty(), stats: zero_stats() }
    } else if parts.len() == 1 {
        parts[0]
    } else {
        let a = joined(parts.drop_last());
        let b = parts.last();
        ResultView {
            columns: united(a.columns, b.columns),
            rows: a.rows + b.rows,
            stats: summed(a.stats, b.stats),
        }
    }
}

/// All sums on the way stay within their types.
pub open spec fn all_sums_fit(parts: Seq<ResultView>) -> bool
    decreases parts.len(),
{
    parts.len() <= 1 || (all_sums_fit(parts.drop_last()) && sums_fit(
        joined(parts.drop_last()).stats,
        parts.last().stats,
    ))
}

/// A result cut to a number of rows.
pub open spec fn limited(r: ResultView, limit: Option<usize>) -> ResultView {
    match limit {
        Some(n) => if r.rows.len() > n {
            ResultView {
                rows: r.rows.take(n as int),
                stats: ResultStats {
                    rows_returned: (n as nat % 0x1_0000_0000) as u32,
                    ..r.stats
                },
                ..r
            }
        } else {
            r
        },
        None => r,
    }
}

/// The contents of a list of results.
pub open spec fn result_views(v: Seq<ResultSet>) -> Seq<ResultView> {
    Seq::new(v.len(), |i: int| v[i]@)
}

fn has_column(columns: &Vec<String>, name: &str) -> (r: bool)
    ensures
        r == string_views(columns@).contains(name@),
{
    let ghost texts = string_views(columns@);
    let mut i: usize = 0;
    while i < columns.len()
        invariant
            i <= columns@.len(),
            texts == string_views(columns@),
            forall|k: int| 0 <= k < i ==> texts[k] != name@,
        decreases columns.len() - i,
    {
        assert(texts[i as int] == columns@[i as int]@);
        if text_eq(columns[i].as_str(), name) {
            return true;
        }
        i = i + 1;
    }
    false
}

fn unite(columns: &mut Vec<String>, more: &Vec<String>)
    ensures
        string_views(final(columns)@) == united(
            string_views(old(columns)@),
            string_views(more@),
        ),
{
    let ghost all = string_views(more@);
    let ghost before = string_views(columns@);
    let mut i: usize = 0;
    assert(all.take(0) =~= Seq::empty());
    while i < more.len()
        invariant
            i <= more@.len(),
            all == string_views(more@),
            string_views(columns@) == united(before, all.take(i as int)),
        decreases more.len() - i,
    {
        proof {
            assert(all.take(i + 1).drop_last() =~= all.take(i as int));
            assert(all.take(i + 1).last() == more@[i as int]@);
        }
        if !has_column(columns, more[i].as_str()) {
            let ghost prev = string_views(columns@);
            columns.push(more[i].clone());
            assert(string_views(columns@) =~= prev.push(more@[i as int]@));
        }
        i = i + 1;
    }
    assert(all.take(i as int) =~= all);
}

proof fn lemma_fits_prefix(parts: Seq<ResultView>, n: int)
    requires
        all_sums_fit(parts),
        0 <= n <= parts.len(),
    ensures
        all_sums_fit(parts.take(n)),
    decreases parts.len() - n,
{
    if n < parts.len() {
        lemma_fits_prefix(parts, n + 1);
        assert(parts.take(n + 1).drop_last() =~= parts.take(n));
    } else {
        assert(parts.take(n) =~= parts);
    }
}

/// Combines partial results, in order, into one of at most `limit` rows.
pub fn merge_result_sets(parts: Vec<ResultSet>, limit: Option<usize>) -> (r: ResultSet)
    requires
        all_sums_fit(result_views(parts@)),
    ensures
        r@ == limited(joined(result_views(parts@)), limit),
{
    let ghost all = result_views(parts@);
    let mut parts = parts;
    if parts.len() == 0 {
        let r = ResultSet::default();
        assert(r@ =~= limited(joined(all), limit));
        return r;
    }
    let mut out = ResultSet::default();
    std::mem::swap(&mut parts[0], &mut out);
    proof {
        assert(out@ == all[0]);
        assert(all.take(1) =~= seq![all[0]]);
    }
    let mut i: usize = 1;
    while i < parts.len()
        invariant
            1 <= i <= parts@.len(),
            parts@.len() == all.len(),
            all_sums_fit(all),
            forall|k: int| i <= k < all.len() ==> (#[trigger] parts@[k])@ == all[k],
            out@ == joined(all.take(i as int)),
        decreases parts.len() - i,
    {
        let mut part = ResultSet::default();
        assert(parts@[i as int]@ == all[i as int]);
        std::mem::swap(&mut parts[i], &mut part);
        proof {
            lemma_fits_prefix(all, i + 1);
            assert(all.take(i + 1).drop_last() =~= all.take(i as int));
            assert(all.take(i + 1).last() == all[i as int]);
        }
        let ghost before = out@;
        out.rows.append(&mut part.rows);
        unite(&mut out.columns, &part.columns);
        let a: ResultStats = out.stats;
        let b: ResultStats = part.stats;
        out.stats = ResultStats {
            segments_scanned: a.segments_scanned + b.segments_scanned,
            row_groups_pruned: a.row_groups_pruned + b.row_groups_pruned,
            row_groups_scanned: a.row_groups_scanned + b.row_groups_scanned,
            rows_returned: a.rows_returned + b.rows_returned,
            elapsed_ms: if a.elapsed_ms >= b.elapsed_ms {
                a.elapsed_ms
            } else {
                b.elapsed_ms
            },
            bytes_decoded_wide: a.bytes_decoded_wide + b.bytes_decoded_wide,
        };
        assert(out@ =~= joined(all.take(i + 1)));
        i = i + 1;
    }
    assert(all.take(i as int) =~= all);
    match limit {
        Some(n) => {
            if out.rows.len() > n {
                let ghost rows = out.rows@;
                out.rows.truncate(n);
                out.stats.rows_returned = crate::wire::low_u32(n);
                assert(out.rows@ =~= rows.take(n as int));
                assert(out@ =~= limited(joined(all), limit));
            }
        },
        None => {},
    }
    out
}

} // verus!
