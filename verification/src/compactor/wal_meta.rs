//! The bounds of a batch, recorded in the catalog when it becomes a log object.
use crate::common::types::{filled16, CommitId, TraceId};
use crate::compactor::batch::{cells_of, fixed_cells_of, fixed_slots, BatchView, SpanBatch};
use crate::format::page::array16;
use crate::order::{
    bytes_le, lemma_lex_total, lemma_lex_transitive, lex_le,
};
use vstd::prelude::*;

verus! {

/// The ranges that the rows of a batch span.
pub struct WalBatchMetadata {
    pub commit_id_min: CommitId,
    pub commit_id_max: CommitId,
    pub time_min: i64,
    pub time_max: i64,
    pub trace_id_min: TraceId,
    pub trace_id_max: TraceId,
}

/// `v` is in a cell of the column that is not null.
pub open spec fn holds<T>(col: Seq<(bool, T)>, v: T) -> bool {
    exists|i: int| 0 <= i < col.len() && #[trigger] col[i] == (false, v)
}

/// The least and the greatest value of a column of commit numbers.
pub open spec fn is_commit_range(col: Seq<(bool, u64)>, lo: u64, hi: u64) -> bool {
    &&& holds(col, lo)
    &&& holds(col, hi)
    &&& forall|v: u64| #[trigger] holds(col, v) ==> lo <= v <= hi
}

/// The least and the greatest value of a column of times.
pub open spec fn is_time_range(col: Seq<(bool, i64)>, lo: i64, hi: i64) -> bool {
    &&& holds(col, lo)
    &&& holds(col, hi)
    &&& forall|v: i64| #[trigger] holds(col, v) ==> lo <= v <= hi
}

/// A 16-byte identifier in a cell that is not null.
pub open spec fn holds_id(col: Seq<(bool, Seq<u8>)>, v: Seq<u8>) -> bool {
    holds(col, v) && v.len() == 16
}

/// The least and the greatest 16-byte identifier of a column.
pub open spec fn is_id_range(col: Seq<(bool, Seq<u8>)>, lo: Seq<u8>, hi: Seq<u8>) -> bool {
    &&& holds_id(col, lo)
    &&& holds_id(col, hi)
    &&& forall|v: Seq<u8>| #[trigger] holds_id(col, v) ==> lex_le(lo, v) && lex_le(v, hi)
}

/// Some commit number of the batch is known: there is a column of them, and it holds one
/// below the greatest number there is.
pub open spec fn has_commit(b: BatchView) -> bool {
    &&& b.u64s("commit_id"@) is Some
    &&& exists|v: u64| #[trigger] holds(b.u64s("commit_id"@)->0, v) && v != u64::MAX
}

/// Some start time of the batch is known.
pub open spec fn has_time(b: BatchView) -> bool {
    &&& b.i64s("start_time_ms"@) is Some
    &&& exists|v: i64| #[trigger] holds(b.i64s("start_time_ms"@)->0, v) && v != i64::MAX
}

/// Some trace of the batch is known.
pub open spec fn has_trace(b: BatchView) -> bool {
    &&& b.fixeds("trace_id"@) is Some
    &&& exists|v: Seq<u8>| #[trigger] holds_id(b.fixeds("trace_id"@)->0, v)
}

/// The least and greatest commit number, or nothing if all are null or at the limit.
fn commit_range(col: &Vec<(bool, u64)>) -> (r: Option<(u64, u64)>)
    ensures
        match r {
            Some((lo, hi)) => is_commit_range(col@, lo, hi) && lo != u64::MAX,
            None => forall|v: u64| #[trigger] holds(col@, v) ==> v == u64::MAX,
        },
{
    let mut lo: u64 = u64::MAX;
    let mut hi: u64 = 0;
    let mut i: usize = 0;
    let ghost mut lo_at: int = -1;
    let ghost mut hi_at: int = -1;
    while i < col.len()
        invariant
            i <= col@.len(),
            forall|k: int| 0 <= k < i && !(#[trigger] col@[k]).0 ==> lo <= col@[k].1 <= hi,
            lo != u64::MAX ==> 0 <= lo_at < i && col@[lo_at] == (false, lo),
            lo != u64::MAX ==> 0 <= hi_at < i && col@[hi_at] == (false, hi),
            hi_at == -1 || (0 <= hi_at < i && col@[hi_at] == (false, hi)),
            hi_at == -1 ==> hi == 0 && forall|k: int| 0 <= k < i ==> (#[trigger] col@[k]).0,
        decreases col.len() - i,
    {
        if !col[i].0 {
            let c: u64 = col[i].1;
            if c < lo {
                lo = c;
                proof {
                    lo_at = i as int;
                }
            }
            if c > hi {
                hi = c;
                proof {
                    hi_at = i as int;
                }
            } else {
                proof {
                    if hi_at == -1 {
                        hi_at = i as int;
                    }
                }
            }
        }
        i = i + 1;
    }
    if lo == u64::MAX {
        return None;
    }
    assert(holds(col@, lo));
    assert(holds(col@, hi));
    Some((lo, hi))
}

/// The least and greatest time, or nothing if all are null or at the limit.
fn time_range(col: &Vec<(bool, i64)>) -> (r: Option<(i64, i64)>)
    ensures
        match r {
            Some((lo, hi)) => is_time_range(col@, lo, hi) && lo != i64::MAX,
            None => forall|v: i64| #[trigger] holds(col@, v) ==> v == i64::MAX,
        },
{
    let mut lo: i64 = i64::MAX;
    let mut hi: i64 = i64::MIN;
    let mut i: usize = 0;
    let ghost mut lo_at: int = -1;
    let ghost mut hi_at: int = -1;
    while i < col.len()
        invariant
            i <= col@.len(),
            forall|k: int| 0 <= k < i && !(#[trigger] col@[k]).0 ==> lo <= col@[k].1 <= hi,
            lo != i64::MAX ==> 0 <= lo_at < i && col@[lo_at] == (false, lo),
            lo != i64::MAX ==> 0 <= hi_at < i && col@[hi_at] == (false, hi),
            hi_at == -1 || (0 <= hi_at < i && col@[hi_at] == (false, hi)),
            hi_at == -1 ==> hi == i64::MIN && forall|k: int| 0 <= k < i ==> (#[trigger] col@[k]).0,
        decreases col.len() - i,
    {
        if !col[i].0 {
            let t: i64 = col[i].1;
            if t < lo {
                lo = t;
                proof {
                    lo_at = i as int;
                }
            }
            if t > hi {
                hi = t;
                proof {
                    hi_at = i as int;
                }
            } else {
                proof {
                    if hi_at == -1 {
                        hi_at = i as int;
                    }
                }
            }
        }
        i = i + 1;
    }
    if lo == i64::MAX {
        return None;
    }
    assert(holds(col@, lo));
    assert(holds(col@, hi));
    Some((lo, hi))
}

/// The least and greatest identifier, or nothing if there is none.
fn id_range(col: &Vec<(bool, Vec<u8>)>) -> (r: Option<([u8; 16], [u8; 16])>)
    ensures
        match r {
            Some((lo, hi)) => is_id_range(fixed_slots(col@), lo@, hi@),
            None => forall|v: Seq<u8>| !#[trigger] holds_id(fixed_slots(col@), v),
        },
{
    let ghost slots = fixed_slots(col@);
    let mut best: Option<([u8; 16], [u8; 16])> = None;
    let mut i: usize = 0;
    let ghost mut lo_at: int = -1;
    let ghost mut hi_at: int = -1;
    while i < col.len()
        invariant
            i <= col@.len(),
            slots == fixed_slots(col@),
            best is None ==> forall|k: int|
                0 <= k < i ==> (#[trigger] slots[k]).0 || slots[k].1.len() != 16,
            best matches Some((lo, hi)) ==> {
                &&& 0 <= lo_at < i && slots[lo_at] == (false, lo@)
                &&& 0 <= hi_at < i && slots[hi_at] == (false, hi@)
                &&& forall|k: int|
                    0 <= k < i && !(#[trigger] slots[k]).0 && slots[k].1.len() == 16 ==> lex_le(
                        lo@,
                        slots[k].1,
                    ) && lex_le(slots[k].1, hi@)
            },
        decreases col.len() - i,
    {
        assert(slots[i as int] == (col@[i as int].0, col@[i as int].1@));
        if !col[i].0 && col[i].1.len() == 16 {
            let id = array16(col[i].1.as_slice(), 0);
            assert(id@ =~= col@[i as int].1@);
            proof {
                lemma_lex_total(id@, id@);
            }
            best = match best {
                None => {
                    proof {
                        lo_at = i as int;
                        hi_at = i as int;
                    }
                    Some((id, id))
                },
                Some((lo, hi)) => {
                    proof {
                        lemma_lex_total(lo@, id@);
                        lemma_lex_total(id@, hi@);
                        assert forall|k: int|
                            0 <= k < i && !(#[trigger] slots[k]).0 && slots[k].1.len()
                                == 16 implies (lex_le(id@, lo@) ==> lex_le(id@, slots[k].1)) && (lex_le(
                            hi@,
                            id@,
                        ) ==> lex_le(slots[k].1, id@)) by {
                            if lex_le(id@, lo@) {
                                lemma_lex_transitive(id@, lo@, slots[k].1);
                            }
                            if lex_le(hi@, id@) {
                                lemma_lex_transitive(slots[k].1, hi@, id@);
                            }
                        }
                    }
                    let below = bytes_le(id.as_slice(), lo.as_slice());
                    let above = bytes_le(hi.as_slice(), id.as_slice());
                    proof {
                        if below {
                            lo_at = i as int;
                        }
                        if above {
                            hi_at = i as int;
                        }
                    }
                    Some((if below { id } else { lo }, if above { id } else { hi }))
                },
            };
        }
        i = i + 1;
    }
    proof {
        if let Some((lo, hi)) = best {
            assert(holds(slots, lo@));
            assert(holds(slots, hi@));
        }
    }
    best
}

/// `m` holds the bounds of a batch of which some row has a commit number.
pub open spec fn is_wal_metadata(b: BatchView, m: WalBatchMetadata) -> bool {
    &&& is_commit_range(b.u64s("commit_id"@)->0, m.commit_id_min.0, m.commit_id_max.0)
    &&& if has_time(b) {
        is_time_range(b.i64s("start_time_ms"@)->0, m.time_min, m.time_max)
    } else {
        m.time_min == i64::MIN && m.time_max == i64::MAX
    }
    &&& if has_trace(b) {
        is_id_range(b.fixeds("trace_id"@)->0, m.trace_id_min.0@, m.trace_id_max.0@)
    } else {
        &&& m.trace_id_min.0@ == Seq::new(16, |i: int| 0u8)
        &&& m.trace_id_max.0@ == Seq::new(16, |i: int| 255u8)
    }
}

/// The ranges of a batch, or nothing if no commit number is known. Unknown times and
/// traces span everything.
pub fn wal_metadata_from_batch(batch: &SpanBatch) -> (r: Option<WalBatchMetadata>)
    ensures
        r is Some <==> has_commit(batch@),
        r matches Some(m) ==> is_wal_metadata(batch@, m),
{
    let commits = batch.u64_column("commit_id");
    let (commit_min, commit_max) = match commits {
        None => {
            return None;
        },
        Some(col) => match commit_range(col) {
            None => {
                return None;
            },
            Some(range) => range,
        },
    };
    let times = batch.i64_column("start_time_ms");
    let time = match times {
        Some(col) => time_range(col),
        None => None,
    };
    let traces = batch.fixed_column("trace_id");
    let trace = match traces {
        Some(col) => id_range(col),
        None => None,
    };
    let (time_min, time_max) = match time {
        Some(range) => range,
        None => (i64::MIN, i64::MAX),
    };
    let no_trace: ([u8; 16], [u8; 16]) = (filled16(0), filled16(255));
    let (trace_min, trace_max) = match trace {
        Some(range) => range,
        None => no_trace,
    };
    proof {
        assert(cells_of(commits) == batch@.u64s("commit_id"@));
        assert(cells_of(times) == batch@.i64s("start_time_ms"@));
        assert(fixed_cells_of(traces) == batch@.fixeds("trace_id"@));
        assert(holds(batch@.u64s("commit_id"@)->0, commit_min));
        if time is Some {
            assert(holds(batch@.i64s("start_time_ms"@)->0, time_min));
        }
        assert(has_time(batch@) == (time is Some));
        if trace is Some {
            assert(holds_id(batch@.fixeds("trace_id"@)->0, trace_min@));
        }
        assert(has_trace(batch@) == (trace is Some));
    }
    Some(
        WalBatchMetadata {
            commit_id_min: CommitId(commit_min),
            commit_id_max: CommitId(commit_max),
            time_min,
            time_max,
            trace_id_min: TraceId(trace_min),
            trace_id_max: TraceId(trace_max),
        },
    )
}

} // verus!
