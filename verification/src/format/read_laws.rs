//! Reading a whole column, one row or some rows of it gives the same values.
use crate::common::errors::ErrorView;
use crate::format::page::{Column, Row};
use crate::format::page_laws::{one_row_agrees, page_view_agrees};
use crate::format::page_view::PageContent;
use crate::format::reader::{picked_rows, SegmentView};
use vstd::prelude::*;

verus! {

/// `row` is the entry of the column at `i`. Unsigned numbers are read as signed ones.
pub open spec fn is_entry(col: Column, i: int, row: Row) -> bool {
    match col {
        Column::Strings(v) => row matches Row::Bytes(b) && b == v[i],
        Column::I64(v) => row matches Row::I64(n) && n == v[i],
        Column::U32(v) => row matches Row::I64(n) && n == v[i],
        Column::F64(v) => row matches Row::F64(n) && n == v[i],
        Column::Fixed16(v) => row matches Row::Fixed16(a) && a == v[i],
        Column::Bytes(v) => row matches Row::Bytes(b) && b == v[i],
    }
}

/// How many entries the column has.
pub open spec fn entries(col: Column) -> nat {
    match col {
        Column::Strings(v) => v.len(),
        Column::I64(v) => v.len(),
        Column::U32(v) => v.len(),
        Column::F64(v) => v.len(),
        Column::Fixed16(v) => v.len(),
        Column::Bytes(v) => v.len(),
    }
}

/// Reading one row of a column gives the entry of the column at that place.
pub proof fn one_row_is_an_entry(view: SegmentView, rg: int, column: u32, i: int)
    requires
        view.column(rg, column) is Ok,
        0 <= i < entries(view.column(rg, column)->Ok_0),
    ensures
        view.row(rg, column, i) matches Ok(row) && is_entry(
            view.column(rg, column)->Ok_0,
            i,
            row,
        ),
{
    let page = view.page(rg, column)->Ok_0;
    let enc = view.encoding(rg, column)->Ok_0;
    one_row_agrees(enc, page, i);
}

/// What was picked stands in the order of the places: row `k` is the one at the `k`-th place.
proof fn lemma_picked(content: PageContent, at: Seq<usize>)
    ensures
        match picked_rows(content, at) {
            Ok(rows) => rows.len() == at.len() && forall|k: int|
                0 <= k < at.len() ==> content.row(at[k] as int) == Ok::<Row, ErrorView>(
                    #[trigger] rows[k],
                ),
            Err(e) => exists|k: int|
                0 <= k < at.len() && content.row(#[trigger] at[k] as int) == Err::<Row, ErrorView>(
                    e,
                ),
        },
    decreases at.len(),
{
    if at.len() > 0 {
        let tail = at.drop_first();
        lemma_picked(content, tail);
        match (content.row(at[0] as int), picked_rows(content, tail)) {
            (Ok(first), Ok(rest)) => {
                let rows = picked_rows(content, at)->Ok_0;
                assert forall|k: int| 0 <= k < at.len() implies content.row(at[k] as int) == Ok::<
                    Row,
                    ErrorView,
                >(#[trigger] rows[k]) by {
                    if k > 0 {
                        assert(rows[k] == rest[k - 1]);
                        assert(tail[k - 1] == at[k]);
                    }
                }
            },
            (Ok(first), Err(e)) => {
                let k = choose|k: int|
                    0 <= k < tail.len() && content.row(#[trigger] tail[k] as int) == Err::<
                        Row,
                        ErrorView,
                    >(e);
                assert(at[k + 1] == tail[k]);
            },
            _ => {
                assert(content.row(at[0] as int) is Err);
            },
        }
    }
}

/// Reading some rows of a column gives the entries at their places, in the order asked for and
/// as often as asked for.
pub proof fn some_rows_are_entries(view: SegmentView, rg: int, column: u32, at: Seq<usize>)
    requires
        view.column(rg, column) is Ok,
        entries(view.column(rg, column)->Ok_0) > 0,
        forall|k: int|
            0 <= k < at.len() ==> (#[trigger] at[k]) < entries(view.column(rg, column)->Ok_0),
    ensures
        view.opened(rg, column) is Ok,
        picked_rows(view.opened(rg, column)->Ok_0, at) matches Ok(rows) && rows.len() == at.len()
            && forall|k: int|
            0 <= k < at.len() ==> is_entry(
                view.column(rg, column)->Ok_0,
                at[k] as int,
                #[trigger] rows[k],
            ),
{
    let page = view.page(rg, column)->Ok_0;
    let enc = view.encoding(rg, column)->Ok_0;
    let col = view.column(rg, column)->Ok_0;
    page_view_agrees(enc, page, 0);
    let content = view.opened(rg, column)->Ok_0;
    assert forall|k: int| 0 <= k < at.len() implies content.row(#[trigger] at[k] as int) == Ok::<
        Row,
        ErrorView,
    >(col.row(at[k] as int)) by {
        page_view_agrees(enc, page, at[k] as int);
    }
    lemma_picked(content, at);
}

} // verus!
