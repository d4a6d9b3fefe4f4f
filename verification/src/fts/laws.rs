//! What is indexed, packed and found.
use crate::fts::blob::{framed, is_lock_name, kept_files, FileView, IndexFile};
use crate::fts::documents::{row_texts, text_places, FieldAccessor, SpanFieldAccessor};
use crate::fts::mask::{hit_row, is_hit, Hit, StoredValue};
use crate::order::{is_stable_order, lex_le, lists, stable_before};
use crate::text::opt_text;
use crate::wire::{le, le_bytes, lemma_le_of_le_bytes, lemma_pow256_values};
use vstd::prelude::*;
use vstd::string::*;
use vstd::utf8::encode_utf8;

verus! {

/// A document holds the texts of its row's fields and nothing else: a text under a field's
/// place if and only if the row has it there, in the order of the fields.
pub proof fn documents_hold_their_rows<A: FieldAccessor>(a: A, row: int, n: nat)
    ensures
        forall|f: int, t: Seq<char>|
            #[trigger] row_texts(a, row, n).contains((f, t)) <==> 0 <= f < n && a.text(row, f)
                == Some(t),
        forall|i: int, j: int|
            0 <= i < j < row_texts(a, row, n).len() ==> (#[trigger] row_texts(a, row, n)[i]).0 < (
            #[trigger] row_texts(a, row, n)[j]).0,
    decreases n,
{
    if n > 0 {
        let m = (n - 1) as nat;
        documents_hold_their_rows(a, row, m);
        let head = row_texts(a, row, m);
        let all = row_texts(a, row, n);
        assert forall|f: int, t: Seq<char>|
            #[trigger] all.contains((f, t)) <==> 0 <= f < n && a.text(row, f) == Some(t) by {
            if all.contains((f, t)) {
                let i = choose|i: int| 0 <= i < all.len() && all[i] == (f, t);
                if i < head.len() {
                    assert(head[i] == (f, t));
                    assert(head.contains((f, t)));
                }
            }
            if 0 <= f < n && a.text(row, f) == Some(t) {
                if f < m {
                    assert(head.contains((f, t)));
                    let i = choose|i: int| 0 <= i < head.len() && head[i] == (f, t);
                    assert(all[i] == (f, t));
                } else {
                    assert(all[head.len() as int] == (f, t));
                }
            }
        }
        assert forall|i: int, j: int| 0 <= i < j < all.len() implies (#[trigger] all[i]).0 < (
        #[trigger] all[j]).0 by {
            assert(all[i] == head[i]);
            assert(head.contains((head[i].0, head[i].1)));
            if j < head.len() {
                assert(all[j] == head[j]);
            }
        }
    }
}

/// Of a span its prompt, its completion and its tool texts are indexed, as the first, the
/// second and the third field.
pub proof fn span_texts_are_indexed(a: SpanFieldAccessor<'_>, row: int, f: int, t: Seq<char>)
    requires
        0 <= row < a.rows@.len(),
    ensures
        row_texts(a, row, 3).contains((f, t)) <==> (f == 0 && opt_text(a.rows@[row].prompt) == Some(
            t,
        )) || (f == 1 && opt_text(a.rows@[row].completion) == Some(t)) || (f == 2 && opt_text(
            a.rows@[row].tool_io_text,
        ) == Some(t)),
{
    documents_hold_their_rows(a, row, 3);
}

/// The fields that hold text are all but that of the row's number, in order.
pub proof fn text_fields_are_all_but_the_row_number(names: Seq<Seq<char>>, n: nat)
    requires
        n <= names.len(),
    ensures
        forall|k: int|
            #[trigger] text_places(names, n).contains(k) <==> 0 <= k < n && names[k]
                != "__row_idx"@,
        forall|i: int, j: int|
            0 <= i < j < text_places(names, n).len() ==> #[trigger] text_places(names, n)[i]
                < #[trigger] text_places(names, n)[j],
    decreases n,
{
    if n > 0 {
        let m = (n - 1) as nat;
        text_fields_are_all_but_the_row_number(names, m);
        let head = text_places(names, m);
        let all = text_places(names, n);
        assert forall|k: int|
            #[trigger] all.contains(k) <==> 0 <= k < n && names[k] != "__row_idx"@ by {
            if all.contains(k) {
                let i = choose|i: int| 0 <= i < all.len() && all[i] == k;
                if i < head.len() {
                    assert(head[i] == k);
                    assert(head.contains(k));
                }
            }
            if 0 <= k < n && names[k] != "__row_idx"@ {
                if k < m {
                    assert(head.contains(k));
                    let i = choose|i: int| 0 <= i < head.len() && head[i] == k;
                    assert(all[i] == k);
                } else {
                    assert(all[head.len() as int] == k);
                }
            }
        }
        assert forall|i: int, j: int| 0 <= i < j < all.len() implies #[trigger] all[i]
            < #[trigger] all[j] by {
            assert(all[i] == head[i]);
            assert(head.contains(head[i]));
            if j < head.len() {
                assert(all[j] == head[j]);
            }
        }
    }
}

/// A document stands for the row whose number it carries, out of the column store or, where
/// that lacks it, out of the stored document; one without a number stands for none.
pub proof fn hits_stand_for_their_rows(row: u32, other: StoredValue)
    ensures
        hit_row(Hit::Fast(row as u64)) == Some(row),
        hit_row(Hit::Stored(Some(StoredValue::U64(row as u64)))) == Some(row),
        hit_row(Hit::Stored(Some(StoredValue::I64(row as i64)))) == Some(row),
        other is Other ==> hit_row(Hit::Stored(Some(other))) is None,
        hit_row(Hit::Stored(None)) is None,
{
}

/// A search's mask holds the rows of all documents that matched, and no other.
pub proof fn masks_hold_every_match(hits: Seq<Hit>, rows: Seq<u32>, row: u32)
    requires
        hits.len() == rows.len(),
        forall|i: int| 0 <= i < hits.len() ==> #[trigger] hits[i] == Hit::Fast(rows[i] as u64),
    ensures
        is_hit(hits, row) <==> rows.contains(row),
{
    if is_hit(hits, row) {
        let i = choose|i: int| 0 <= i < hits.len() && hit_row(#[trigger] hits[i]) == Some(row);
        assert(rows[i] == row);
    }
    if rows.contains(row) {
        let i = choose|i: int| 0 <= i < rows.len() && rows[i] == row;
        assert(hit_row(hits[i]) == Some(row));
    }
}

proof fn lemma_kept(files: Seq<IndexFile>, p: Seq<usize>, i: int)
    requires
        0 <= i < p.len(),
        !is_lock_name(files[p[i] as int].name@),
    ensures
        kept_files(files, p).contains(files[p[i] as int]@),
    decreases p.len(),
{
    let d = p.drop_last();
    let head = kept_files(files, d);
    let all = kept_files(files, p);
    if i < d.len() {
        lemma_kept(files, d, i);
        let k = choose|k: int| 0 <= k < head.len() && head[k] == files[p[i] as int]@;
        assert(all[k] == files[p[i] as int]@);
    } else {
        assert(all[head.len() as int] == files[p[i] as int]@);
    }
}

/// Where the kept file at `k` stood in the order.
proof fn lemma_kept_place(files: Seq<IndexFile>, p: Seq<usize>, k: int) -> (i: int)
    requires
        0 <= k < kept_files(files, p).len(),
    ensures
        0 <= i < p.len(),
        files[p[i] as int]@ == kept_files(files, p)[k],
    decreases p.len(),
{
    let d = p.drop_last();
    let head = kept_files(files, d);
    if k < head.len() {
        lemma_kept_place(files, d, k)
    } else {
        p.len() - 1
    }
}

proof fn lemma_kept_order(files: Seq<IndexFile>, p: Seq<usize>, j: int, k: int)
    requires
        is_ordered(files, p),
        0 <= j < k < kept_files(files, p).len(),
    ensures
        lex_le(
            encode_utf8(kept_files(files, p)[j].name),
            encode_utf8(kept_files(files, p)[k].name),
        ),
    decreases p.len(),
{
    let d = p.drop_last();
    let head = kept_files(files, d);
    assert(is_ordered(files, d)) by {
        assert forall|a: int, b: int| 0 <= a < b < d.len() implies lex_le(
            encode_utf8(files[#[trigger] d[a] as int].name@),
            encode_utf8(files[#[trigger] d[b] as int].name@),
        ) by {
            assert(d[a] == p[a] && d[b] == p[b]);
        }
    }
    if k < head.len() {
        lemma_kept_order(files, d, j, k);
    } else {
        let i = lemma_kept_place(files, d, j);
        assert(d[i] == p[i]);
        assert(p[p.len() - 1] == p.last());
        assert(lex_le(
            encode_utf8(files[p[i] as int].name@),
            encode_utf8(files[p[p.len() - 1] as int].name@),
        ));
    }
}

/// The places list files in the order of their names.
spec fn is_ordered(files: Seq<IndexFile>, p: Seq<usize>) -> bool {
    forall|a: int, b: int|
        0 <= a < b < p.len() ==> lex_le(
            encode_utf8(files[#[trigger] p[a] as int].name@),
            encode_utf8(files[#[trigger] p[b] as int].name@),
        )
}

/// Packing keeps every file but the two lock files, each with its content, in the order of
/// their names, and adds none.
pub proof fn packing_keeps_every_file(files: Seq<IndexFile>, p: Seq<usize>)
    requires
        is_stable_order(files, p),
    ensures
        forall|k: int|
            0 <= k < files.len() && (#[trigger] files[k]).name@ != ".tantivy-writer.lock"@
                && files[k].name@ != ".tantivy-meta.lock"@ ==> kept_files(files, p).contains(
                FileView { name: files[k].name@, bytes: files[k].bytes@ },
            ),
        forall|i: int|
            0 <= i < kept_files(files, p).len() ==> exists|k: int|
                0 <= k < files.len() && (#[trigger] files[k]).name@ == (#[trigger] kept_files(
                    files,
                    p,
                )[i]).name && files[k].bytes@ == kept_files(files, p)[i].bytes,
        forall|i: int|
            0 <= i < kept_files(files, p).len() ==> (#[trigger] kept_files(files, p)[i]).name
                != ".tantivy-writer.lock"@ && kept_files(files, p)[i].name
                != ".tantivy-meta.lock"@,
        forall|i: int, j: int|
            0 <= i < j < kept_files(files, p).len() ==> lex_le(
                encode_utf8((#[trigger] kept_files(files, p)[i]).name),
                encode_utf8((#[trigger] kept_files(files, p)[j]).name),
            ),
{
    let kept = kept_files(files, p);
    assert forall|k: int|
        0 <= k < files.len() && (#[trigger] files[k]).name@ != ".tantivy-writer.lock"@
            && files[k].name@ != ".tantivy-meta.lock"@ implies kept.contains(
        FileView { name: files[k].name@, bytes: files[k].bytes@ },
    ) by {
        assert(lists(p, k));
        let i = choose|i: int| 0 <= i < p.len() && #[trigger] p[i] == k;
        lemma_kept(files, p, i);
    }
    assert forall|i: int| 0 <= i < kept.len() implies exists|k: int|
        0 <= k < files.len() && (#[trigger] files[k]).name@ == (#[trigger] kept[i]).name
            && files[k].bytes@ == kept[i].bytes by {
        let q = lemma_kept_place(files, p, i);
        let k = p[q] as int;
        assert(files[k].name@ == kept[i].name);
    }
    crate::fts::blob::lock_files_are_not_packed(files, p);
    assert(is_ordered(files, p)) by {
        assert forall|a: int, b: int| 0 <= a < b < p.len() implies lex_le(
            encode_utf8(files[#[trigger] p[a] as int].name@),
            encode_utf8(files[#[trigger] p[b] as int].name@),
        ) by {
            assert(stable_before(files, p[a] as int, p[b] as int));
        }
    }
    assert forall|i: int, j: int| 0 <= i < j < kept.len() implies lex_le(
        encode_utf8((#[trigger] kept[i]).name),
        encode_utf8((#[trigger] kept[j]).name),
    ) by {
        lemma_kept_order(files, p, i, j);
    }
}

/// A framed blob begins with the length of its manifest in four bytes, the lowest first. The
/// manifest and the files follow.
pub proof fn frames_have_their_layout(manifest: Seq<u8>, payload: Seq<u8>)
    requires
        manifest.len() <= u32::MAX,
    ensures
        framed(manifest, payload).len() == 4 + manifest.len() + payload.len(),
        le(framed(manifest, payload).take(4)) == manifest.len(),
        framed(manifest, payload).skip(4).take(manifest.len() as int) == manifest,
        framed(manifest, payload).skip(4).skip(manifest.len() as int) == payload,
{
    let s = framed(manifest, payload);
    lemma_pow256_values();
    lemma_le_of_le_bytes(manifest.len(), 4);
    assert(s.take(4) =~= le_bytes(manifest.len(), 4));
    assert(s.skip(4).take(manifest.len() as int) =~= manifest);
    assert(s.skip(4).skip(manifest.len() as int) =~= payload);
}

} // verus!
