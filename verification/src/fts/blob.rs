//! The files of an index in one contiguous blob.
//!
//! ```text
//! [u32 le manifest_len][manifest_bytes][file_1_bytes ...][file_n_bytes]
//! ```
//! The manifest lists the name, the offset and the length of each file.
use crate::common::errors::{ErrorView, ZenError};
use crate::order::{
    bytes_le, is_stable_order, lemma_lex_total, lemma_lex_transitive, lex_le, sort_order, Ranked,
};
use crate::rows::copy_bytes;
use crate::text::text_eq;
use crate::wire::{get_u32, le, le_bytes, lemma_u32_round_trip, put_len32, put_slice};
use vstd::prelude::*;
use vstd::string::*;
use vstd::utf8::encode_utf8;

verus! {

/// A file of an index.
pub struct IndexFile {
    pub name: String,
    pub bytes: Vec<u8>,
}

/// A file by its name and content.
#[verifier::ext_equal]
pub struct FileView {
    pub name: Seq<char>,
    pub bytes: Seq<u8>,
}

impl View for IndexFile {
    type V = FileView;

    open spec fn view(&self) -> FileView {
        FileView { name: self.name@, bytes: self.bytes@ }
    }
}

/// Where a file stands in the payload.
pub struct ManifestEntry {
    pub name: String,
    pub offset: u64,
    pub length: u64,
}

#[verifier::ext_equal]
pub struct EntryView {
    pub name: Seq<char>,
    pub offset: nat,
    pub length: nat,
}

impl View for ManifestEntry {
    type V = EntryView;

    open spec fn view(&self) -> EntryView {
        EntryView { name: self.name@, offset: self.offset as nat, length: self.length as nat }
    }
}

impl Ranked for IndexFile {
    open spec fn precedes(&self, other: &Self) -> bool {
        lex_le(encode_utf8(self.name@), encode_utf8(other.name@))
    }

    proof fn precedes_total(a: &Self, b: &Self) {
        lemma_lex_total(encode_utf8(a.name@), encode_utf8(b.name@));
    }

    proof fn precedes_transitive(a: &Self, b: &Self, c: &Self) {
        lemma_lex_transitive(encode_utf8(a.name@), encode_utf8(b.name@), encode_utf8(c.name@));
    }

    fn is_before(&self, other: &Self) -> (r: bool) {
        bytes_le(self.name.as_str().as_bytes(), other.name.as_str().as_bytes())
    }
}

/// A file that only guards a running index: it is neither packed nor unpacked.
pub open spec fn is_lock_name(name: Seq<char>) -> bool {
    name == ".tantivy-writer.lock"@ || name == ".tantivy-meta.lock"@
}

pub fn is_tantivy_lock_file(path: &str) -> (r: bool)
    ensures
        r == is_lock_name(path@),
{
    text_eq(path, ".tantivy-writer.lock") || text_eq(path, ".tantivy-meta.lock")
}

/// The files at the places `p`, without lock files.
pub open spec fn kept_files(files: Seq<IndexFile>, p: Seq<usize>) -> Seq<FileView>
    decreases p.len(),
{
    if p.len() == 0 {
        Seq::empty()
    } else {
        let head = kept_files(files, p.drop_last());
        let f = files[p.last() as int]@;
        if is_lock_name(f.name) {
            head
        } else {
            head.push(f)
        }
    }
}

/// The contents of files, joined.
pub open spec fn joined(files: Seq<FileView>) -> Seq<u8>
    decreases files.len(),
{
    if files.len() == 0 {
        Seq::empty()
    } else {
        joined(files.drop_last()) + files.last().bytes
    }
}

/// The manifest entry of the `k`-th file.
pub open spec fn entry_of(files: Seq<FileView>, k: int) -> EntryView {
    EntryView {
        name: files[k].name,
        offset: joined(files.take(k)).len(),
        length: files[k].bytes.len(),
    }
}

/// `m` is the manifest of files that are joined.
pub open spec fn is_manifest(files: Seq<FileView>, m: Seq<ManifestEntry>) -> bool {
    m.len() == files.len() && forall|k: int|
        0 <= k < m.len() ==> (#[trigger] m[k])@ == entry_of(files, k)
}

/// The manifest and payload of a directory's files, in the order of their names.
pub open spec fn is_packed(files: Seq<IndexFile>, m: Seq<ManifestEntry>, payload: Seq<u8>) -> bool {
    exists|p: Seq<usize>|
        {
            &&& #[trigger] is_stable_order(files, p)
            &&& is_manifest(kept_files(files, p), m)
            &&& payload == joined(kept_files(files, p))
        }
}

/// Packs the files of a directory: manifest and payload, ordered by name, without lock files.
pub fn pack_files(files: &Vec<IndexFile>) -> (r: (Vec<ManifestEntry>, Vec<u8>))
    ensures
        is_packed(files@, r.0@, r.1@),
{
    let p = sort_order(files.as_slice());
    let mut manifest: Vec<ManifestEntry> = Vec::new();
    let mut payload: Vec<u8> = Vec::new();
    let mut i: usize = 0;
    assert(p@.take(0) =~= Seq::<usize>::empty());
    while i < p.len()
        invariant
            i <= p@.len(),
            is_stable_order(files@, p@),
            is_manifest(kept_files(files@, p@.take(i as int)), manifest@),
            payload@ == joined(kept_files(files@, p@.take(i as int))),
        decreases p@.len() - i,
    {
        let k: usize = p[i];
        let ghost before = kept_files(files@, p@.take(i as int));
        assert(p@.take(i + 1).drop_last() =~= p@.take(i as int));
        assert(p@.take(i + 1).last() == k);
        if !is_tantivy_lock_file(files[k].name.as_str()) {
            let ghost after = before.push(files@[k as int]@);
            let ghost old_manifest = manifest@;
            let n: usize = payload.len();
            manifest.push(
                ManifestEntry {
                    name: files[k].name.clone(),
                    offset: n as u64,
                    length: files[k].bytes.len() as u64,
                },
            );
            put_slice(&mut payload, files[k].bytes.as_slice());
            proof {
                assert(after.drop_last() =~= before);
                assert forall|j: int| 0 <= j < manifest@.len() implies (#[trigger] manifest@[j])@
                    == entry_of(after, j) by {
                    assert(after.take(j) =~= before.take(j));
                    if j < before.len() {
                        assert(manifest@[j] == old_manifest[j]);
                    } else {
                        assert(before.take(j) =~= before);
                    }
                }
            }
        }
        i = i + 1;
    }
    assert(p@.take(p@.len() as int) =~= p@);
    (manifest, payload)
}

/// A blob: the manifest's length, the manifest and the payload.
pub open spec fn framed(manifest: Seq<u8>, payload: Seq<u8>) -> Seq<u8> {
    le_bytes(manifest.len(), 4) + manifest + payload
}

/// Puts a manifest and the payload into one blob.
pub fn frame_blob(manifest: &[u8], payload: &[u8]) -> (r: Vec<u8>)
    ensures
        r@ == framed(manifest@, payload@),
{
    let mut out: Vec<u8> = Vec::new();
    put_len32(&mut out, manifest.len());
    put_slice(&mut out, manifest);
    put_slice(&mut out, payload);
    assert(out@ =~= framed(manifest@, payload@));
    out
}

/// The length of the manifest that a blob announces.
pub open spec fn manifest_len(blob: Seq<u8>) -> nat {
    le(blob.subrange(0, 4))
}

/// The manifest of a blob and its payload.
pub open spec fn split_of(blob: Seq<u8>) -> (Seq<u8>, Seq<u8>) {
    let n = 4 + manifest_len(blob);
    (blob.subrange(4, n as int), blob.skip(n as int))
}

/// Takes a blob apart: the manifest's bytes and the payload.
pub fn split_blob(blob: &[u8]) -> (r: Result<(Vec<u8>, Vec<u8>), ZenError>)
    ensures
        if blob@.len() < 4 {
            r matches Err(e) && e@ == ErrorView::Format("FTS blob too small"@)
        } else if blob@.len() < 4 + manifest_len(blob@) {
            r matches Err(e) && e@ == ErrorView::Format("FTS manifest truncated"@)
        } else {
            r matches Ok(v) && (v.0@, v.1@) == split_of(blob@)
        },
{
    let total: usize = blob.len();
    if total < 4 {
        return Err(ZenError::format("FTS blob too small"));
    }
    let n: usize = get_u32(blob, 0) as usize;
    if total - 4 < n {
        return Err(ZenError::format("FTS manifest truncated"));
    }
    let manifest = copy_bytes(vstd::slice::slice_subrange(blob, 4, 4 + n));
    let payload = copy_bytes(vstd::slice::slice_subrange(blob, 4 + n, total));
    assert(payload@ =~= blob@.skip(4 + n));
    Ok((manifest, payload))
}

/// The file of an entry lies within the payload.
pub open spec fn entry_fits(e: EntryView, payload: Seq<u8>) -> bool {
    is_lock_name(e.name) || e.offset + e.length <= payload.len()
}

/// All the files of a manifest lie within the payload.
pub open spec fn all_fit(m: Seq<ManifestEntry>, payload: Seq<u8>) -> bool {
    forall|k: int| 0 <= k < m.len() ==> entry_fits((#[trigger] m[k])@, payload)
}

/// The files of a manifest, without lock files.
pub open spec fn unpacked(m: Seq<ManifestEntry>, payload: Seq<u8>) -> Seq<FileView>
    decreases m.len(),
{
    if m.len() == 0 {
        Seq::empty()
    } else {
        let head = unpacked(m.drop_last(), payload);
        let e = m.last()@;
        if is_lock_name(e.name) {
            head
        } else {
            head.push(
                FileView {
                    name: e.name,
                    bytes: payload.subrange(e.offset as int, (e.offset + e.length) as int),
                },
            )
        }
    }
}

/// The views of files.
pub open spec fn file_views(files: Seq<IndexFile>) -> Seq<FileView> {
    Seq::new(files.len(), |k: int| files[k]@)
}

/// The files that a manifest lists, cut out of the payload.
pub fn unpack_files(manifest: &Vec<ManifestEntry>, payload: &[u8]) -> (r: Result<
    Vec<IndexFile>,
    ZenError,
>)
    ensures
        if all_fit(manifest@, payload@) {
            r matches Ok(files) && file_views(files@) == unpacked(manifest@, payload@)
        } else {
            r matches Err(e) && e@ == ErrorView::Format("FTS payload truncated"@)
        },
{
    let mut files: Vec<IndexFile> = Vec::new();
    let total: usize = payload.len();
    let mut i: usize = 0;
    assert(manifest@.take(0) =~= Seq::<ManifestEntry>::empty());
    assert(file_views(files@) =~= Seq::<FileView>::empty());
    while i < manifest.len()
        invariant
            i <= manifest@.len(),
            total == payload@.len(),
            forall|k: int| 0 <= k < i ==> entry_fits((#[trigger] manifest@[k])@, payload@),
            file_views(files@) == unpacked(manifest@.take(i as int), payload@),
        decreases manifest@.len() - i,
    {
        let ghost before = file_views(files@);
        assert(manifest@.take(i + 1).drop_last() =~= manifest@.take(i as int));
        assert(manifest@.take(i + 1).last() == manifest@[i as int]);
        if !is_tantivy_lock_file(manifest[i].name.as_str()) {
            let s: u64 = manifest[i].offset;
            let n: u64 = manifest[i].length;
            if s > total as u64 || n > total as u64 - s {
                assert(!entry_fits(manifest@[i as int]@, payload@));
                return Err(ZenError::format("FTS payload truncated"));
            }
            let bytes = copy_bytes(
                vstd::slice::slice_subrange(payload, s as usize, (s + n) as usize),
            );
            files.push(IndexFile { name: manifest[i].name.clone(), bytes });
            assert(file_views(files@) =~= before.push(files@.last()@));
        }
        i = i + 1;
    }
    assert(manifest@.take(manifest@.len() as int) =~= manifest@);
    Ok(files)
}

/// No file is a lock file.
pub open spec fn no_lock_files(files: Seq<FileView>) -> bool {
    forall|k: int| 0 <= k < files.len() ==> !is_lock_name((#[trigger] files[k]).name)
}

/// What is packed holds no lock file.
pub proof fn lock_files_are_not_packed(files: Seq<IndexFile>, p: Seq<usize>)
    ensures
        no_lock_files(kept_files(files, p)),
    decreases p.len(),
{
    if p.len() > 0 {
        lock_files_are_not_packed(files, p.drop_last());
    }
}

proof fn lemma_joined_take(files: Seq<FileView>, k: int)
    requires
        0 <= k < files.len(),
    ensures
        joined(files.take(k)).len() + files[k].bytes.len() <= joined(files).len(),
        joined(files).subrange(
            joined(files.take(k)).len() as int,
            (joined(files.take(k)).len() + files[k].bytes.len()) as int,
        ) == files[k].bytes,
    decreases files.len(),
{
    let n = files.len() - 1;
    let head = files.drop_last();
    if k == n {
        assert(files.take(k) =~= head);
        assert(joined(files).subrange(
            joined(head).len() as int,
            (joined(head).len() + files[k].bytes.len()) as int,
        ) =~= files[k].bytes);
    } else {
        lemma_joined_take(head, k);
        assert(head.take(k) =~= files.take(k));
        let a = joined(files.take(k)).len() as int;
        let b = a + files[k].bytes.len();
        assert(joined(files).subrange(a, b) =~= joined(head).subrange(a, b));
    }
}

proof fn lemma_unpacked(files: Seq<FileView>, m: Seq<ManifestEntry>, n: int)
    requires
        is_manifest(files, m),
        no_lock_files(files),
        0 <= n <= m.len(),
    ensures
        unpacked(m.take(n), joined(files)) == files.take(n),
    decreases n,
{
    if n > 0 {
        lemma_unpacked(files, m, n - 1);
        assert(m.take(n).drop_last() =~= m.take(n - 1));
        assert(m.take(n).last() == m[n - 1]);
        lemma_joined_take(files, n - 1);
        assert(files.take(n) =~= files.take(n - 1).push(files[n - 1]));
    } else {
        assert(m.take(0) =~= Seq::<ManifestEntry>::empty());
        assert(files.take(0) =~= Seq::<FileView>::empty());
    }
}

/// Unpacking gives back the files that were packed: all but the lock files, in the order of
/// their names.
pub proof fn packed_files_round_trip(
    files: Seq<IndexFile>,
    p: Seq<usize>,
    m: Seq<ManifestEntry>,
    payload: Seq<u8>,
)
    requires
        is_stable_order(files, p),
        is_manifest(kept_files(files, p), m),
        payload == joined(kept_files(files, p)),
    ensures
        all_fit(m, payload),
        unpacked(m, payload) == kept_files(files, p),
{
    let kept = kept_files(files, p);
    lock_files_are_not_packed(files, p);
    assert forall|k: int| 0 <= k < m.len() implies entry_fits((#[trigger] m[k])@, payload) by {
        lemma_joined_take(kept, k);
    }
    lemma_unpacked(kept, m, m.len() as int);
    assert(m.take(m.len() as int) =~= m);
    assert(kept.take(m.len() as int) =~= kept);
}

/// A blob gives back the manifest and the payload that were framed, for a manifest whose
/// length fits in its field.
pub proof fn framed_blob_round_trip(manifest: Seq<u8>, payload: Seq<u8>)
    requires
        manifest.len() <= u32::MAX,
    ensures
        framed(manifest, payload).len() == 4 + manifest.len() + payload.len(),
        manifest_len(framed(manifest, payload)) == manifest.len(),
        split_of(framed(manifest, payload)) == (manifest, payload),
{
    let blob = framed(manifest, payload);
    lemma_u32_round_trip(manifest.len());
    assert(blob.subrange(0, 4) =~= le_bytes(manifest.len(), 4));
    assert(blob.subrange(4, (4 + manifest.len()) as int) =~= manifest);
    assert(blob.skip((4 + manifest.len()) as int) =~= payload);
}

} // verus!
