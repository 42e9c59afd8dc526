use vstd::prelude::*;

use crate::assembler::assembled_prefix;
use crate::engine::{
    completed_file_ok, engine_wf, filename_unique, staged_bytes_in, EngineModel,
};
use crate::fsmodel::{write_at, StagingRec};
use crate::store::{
    chunks_wf, file_index, has_file, lemma_sizes_cover, spec_transition, store_wf,
    sum_chunk_sizes, ChunkRec, FileRec, StoreModel, STATUS_COMPLETED, STATUS_PROCESSING,
};

verus! {

/// Law: the chunk rows a registration creates partition the file exactly.
/// They are contiguous and ascending, start at byte zero, end at the last
/// byte, and their sizes sum to the file's total size.
pub proof fn lemma_registered_chunks_partition(f: FileRec, rows: Seq<ChunkRec>)
    requires
        chunks_wf(f, rows),
    ensures
        rows.len() >= 1,
        rows[0].start_offset == 0,
        rows[rows.len() - 1].end_offset == f.total_size - 1,
        forall|j: int|
            0 <= j < rows.len() - 1 ==> rows[j + 1].start_offset == #[trigger] rows[j].end_offset
                + 1,
        sum_chunk_sizes(rows) == f.total_size,
{
    lemma_sizes_cover(rows);
}

/// Law: a plan whose last chunk ends at the last byte, under a fixed chunk
/// length, has exactly `ceil(total / chunk_size)` chunks. The planner's
/// contract gives its two hypotheses: the last chunk starts before `total`
/// and ends at `total - 1`.
pub proof fn lemma_plan_count(total: int, cs: int, n: int)
    requires
        1 <= cs,
        1 <= total,
        1 <= n,
        (n - 1) * cs < total,
        total <= n * cs,
    ensures
        n == (total + cs - 1) / cs,
{
    let a = total + cs - 1;
    assert((n - 1) * cs == n * cs - cs) by (nonlinear_arith);
    assert(n * cs <= a);
    assert(a < n * cs + cs);
    let r = a - n * cs;
    vstd::arithmetic::div_mod::lemma_fundamental_div_mod_converse_div(a, cs, n, r);
}

/// Law: the final path is published at most once per file. The completion
/// transition leaves the file COMPLETED, so a retry of the
/// PROCESSING-to-COMPLETED compare-and-set finds the guard false and, by
/// `Store::transition_status`'s contract, updates nothing.
pub proof fn lemma_publish_at_most_once(
    m: StoreModel,
    fid: Seq<char>,
    path: Option<Seq<char>>,
    now: int,
)
    requires
        store_wf(m),
        has_file(m, fid),
    ensures
        ({
            let m1 = spec_transition(m, fid, STATUS_COMPLETED as int, path, now);
            &&& has_file(m1, fid)
            &&& file_index(m1, fid) == file_index(m, fid)
            &&& m1.files[file_index(m1, fid)].status == STATUS_COMPLETED
            &&& m1.files[file_index(m1, fid)].status != STATUS_PROCESSING
        }),
{
    let fi = file_index(m, fid);
    let m1 = spec_transition(m, fid, STATUS_COMPLETED as int, path, now);
    assert(0 <= fi < m.files.len() && m.files[fi].file_id == fid);
    assert(m1.files[fi].file_id == fid);
    assert(has_file(m1, fid));
    let j = file_index(m1, fid);
    assert(0 <= j < m1.files.len() && m1.files[j].file_id == fid);
    if j != fi {
        assert(m.files[j].file_id == fid);
        if j < fi {
            assert(m.files[j].file_id != m.files[fi].file_id);
        } else {
            assert(m.files[fi].file_id != m.files[j].file_id);
        }
        assert(false);
    }
}

/// Law: progress stays inside the chunk. In every well-formed store, every
/// chunk row's uploaded byte count lies between zero and its chunk size.
pub proof fn lemma_progress_within_chunk(m: StoreModel, i: int, j: int)
    requires
        store_wf(m),
        0 <= i < m.files.len(),
        0 <= j < m.chunks[i].len(),
    ensures
        0 <= m.chunks[i][j].uploaded_size <= m.chunks[i][j].chunk_size,
{
    assert(crate::store::chunk_row_wf(m.files[i], m.chunks[i][j]));
}

/// Law: a completed file is published and verified. In every well-formed
/// engine, a COMPLETED file whose sanitized name no other registered file
/// shares has its bytes published at its recorded path, and their MD5
/// matches its registered digest up to ASCII case. (Two files registered
/// under one name share disk paths, so the later may overwrite the earlier;
/// the uniqueness hypothesis excludes exactly that collision.)
pub proof fn lemma_completed_is_published(e: EngineModel, i: int)
    requires
        engine_wf(e),
        0 <= i < e.store.files.len(),
        e.store.files[i].status == STATUS_COMPLETED,
        filename_unique(e.store, i),
    ensures
        completed_file_ok(e, e.store.files[i]),
{
}

/// Law: resume is idempotent. After a call wrote the content's bytes
/// `[a, b)` at in-chunk position `a`, a later call that rewrites `[a2, b)`
/// of the same content, for any `a <= a2 < b`, leaves the staging bytes
/// unchanged — so the assembled file is the same as well.
pub proof fn lemma_resume_idempotent(f0: Seq<u8>, content: Seq<u8>, a: int, a2: int, b: int)
    requires
        0 <= a <= a2 < b <= content.len(),
    ensures
        ({
            let f1 = write_at(f0, a, content.subrange(a, b));
            write_at(f1, a2, content.subrange(a2, b)) == f1
        }),
{
    let d1 = content.subrange(a, b);
    let d2 = content.subrange(a2, b);
    let f1 = write_at(f0, a, d1);
    assert(f1.len() >= b);
    assert(forall|i: int| a <= i < b ==> f1[i] == content[i]);
    assert(write_at(f1, a2, d2) =~= f1);
}

/// The assembled prefix over the first `k` chunks equals the content up to
/// the end of chunk `k - 1`, when every staging file holds its chunk's
/// slice of the content.
proof fn lemma_assembly_prefix(
    st: Seq<StagingRec>,
    name: Seq<char>,
    f: FileRec,
    rows: Seq<ChunkRec>,
    content: Seq<u8>,
    k: int,
)
    requires
        chunks_wf(f, rows),
        content.len() == f.total_size,
        forall|j: int|
            0 <= j < rows.len() ==> staged_bytes_in(st, name, (#[trigger] rows[j]).start_offset)
                == content.subrange(rows[j].start_offset, rows[j].end_offset + 1),
        0 <= k <= rows.len(),
    ensures
        assembled_prefix(st, name, rows, k) == (if k == 0 {
            Seq::<u8>::empty()
        } else {
            content.take(rows[k - 1].end_offset + 1)
        }),
    decreases k,
{
    if k > 0 {
        lemma_assembly_prefix(st, name, f, rows, content, k - 1);
        assert(crate::store::chunk_row_wf(f, rows[k - 1]));
        if k == 1 {
            assert(rows[0].start_offset == 0);
            assert(assembled_prefix(st, name, rows, 1) == Seq::<u8>::empty() + staged_bytes_in(
                st,
                name,
                rows[0].start_offset,
            ));
            assert(content.subrange(0, rows[0].end_offset + 1) =~= content.take(
                rows[0].end_offset + 1,
            ));
            assert(Seq::<u8>::empty() + content.take(rows[0].end_offset + 1) =~= content.take(
                rows[0].end_offset + 1,
            ));
        } else {
            assert(rows[k - 1].start_offset == rows[k - 2].end_offset + 1);
            assert(assembled_prefix(st, name, rows, k) == content.take(rows[k - 2].end_offset + 1)
                + content.subrange(rows[k - 1].start_offset, rows[k - 1].end_offset + 1));
            assert(content.take(rows[k - 2].end_offset + 1) + content.subrange(
                rows[k - 1].start_offset,
                rows[k - 1].end_offset + 1,
            ) =~= content.take(rows[k - 1].end_offset + 1));
        }
    }
}

/// Law: chunk order independence. The assembled output is a function of
/// the staging contents alone; however the chunk uploads were interleaved,
/// once every staging file holds its chunk's slice of the whole content,
/// assembly yields exactly that content — and therefore the same MD5.
pub proof fn lemma_assembly_covers(
    st: Seq<StagingRec>,
    name: Seq<char>,
    f: FileRec,
    rows: Seq<ChunkRec>,
    content: Seq<u8>,
)
    requires
        chunks_wf(f, rows),
        content.len() == f.total_size,
        forall|j: int|
            0 <= j < rows.len() ==> staged_bytes_in(st, name, (#[trigger] rows[j]).start_offset)
                == content.subrange(rows[j].start_offset, rows[j].end_offset + 1),
    ensures
        assembled_prefix(st, name, rows, rows.len() as int) == content,
{
    lemma_assembly_prefix(st, name, f, rows, content, rows.len() as int);
    assert(rows[rows.len() - 1].end_offset == f.total_size - 1);
    assert(content.take(f.total_size as int) =~= content);
}

} // verus!
