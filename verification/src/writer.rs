use vstd::prelude::*;

use crate::assembler::{all_staged, assemble_mismatch, assemble_ok, assembled_bytes};
use crate::digest::{md5_hex_of, sha256_hex, sha256_hex_of};
use crate::engine::{
    engine_wf, lemma_completed_preserved_general, staged_bytes_in, staged_in, staged_index_in,
    staging_unique, EngineModel, UploadEngine,
};
use crate::errors::UploadError;
use crate::fsmodel::{find_staging, overwrite_at, write_at, StagingFile, StagingRec};
use crate::parse::{parse_content_range, range_spec};
use crate::store::{
    chunk_index, file_index, files_has, files_index, find_chunk_idx, has_chunk, has_file,
    initialized, lemma_starts_increasing, lemma_statuses_advance_trans, rows_has, rows_index,
    rows_view, spec_transition, spec_update_chunk, statuses_advance, store_wf, sum_uploaded_rows,
    ChunkRec, StoreModel, STATUS_PROCESSING, STATUS_REGISTERED,
};
use crate::MAX_STORE_INT;

verus! {

/// The byte sequences a call's body delivers, in arrival order.
pub open spec fn bufs_view(body: Seq<Vec<u8>>) -> Seq<Seq<u8>> {
    body.map_values(|v: Vec<u8>| v@)
}

/// Concatenation of the body's buffers.
pub open spec fn concat_bufs(bufs: Seq<Seq<u8>>) -> Seq<u8>
    decreases bufs.len(),
{
    if bufs.len() == 0 {
        Seq::empty()
    } else {
        concat_bufs(bufs.drop_last()) + bufs.last()
    }
}

/// The bytes a call writes: the concatenated body, cut off at the declared
/// content length.
pub open spec fn delivered_bytes(bufs: Seq<Seq<u8>>, cl: int) -> Seq<u8> {
    let all = concat_bufs(bufs);
    if cl <= all.len() {
        all.take(cl)
    } else {
        all
    }
}

/// The concatenation of a prefix of the buffers is a prefix of the whole
/// concatenation.
pub proof fn lemma_concat_take_prefix(bufs: Seq<Seq<u8>>, k: int)
    requires
        0 <= k <= bufs.len(),
    ensures
        concat_bufs(bufs.take(k)).len() <= concat_bufs(bufs).len(),
        concat_bufs(bufs.take(k)) == concat_bufs(bufs).take(
            concat_bufs(bufs.take(k)).len() as int,
        ),
    decreases bufs.len() - k,
{
    if k == bufs.len() {
        assert(bufs.take(k) =~= bufs);
        assert(concat_bufs(bufs).take(concat_bufs(bufs).len() as int) =~= concat_bufs(bufs));
    } else {
        let ck = concat_bufs(bufs.take(k));
        let ck1 = concat_bufs(bufs.take(k + 1));
        assert(bufs.take(k + 1).drop_last() =~= bufs.take(k));
        assert(bufs.take(k + 1).last() == bufs[k]);
        assert(ck1 == ck + bufs[k]);
        lemma_concat_take_prefix(bufs, k + 1);
        assert(ck =~= ck1.take(ck.len() as int));
        assert(ck =~= concat_bufs(bufs).take(ck.len() as int));
    }
}

/// Writing a second block directly after a first one equals writing their
/// concatenation at once.
pub proof fn lemma_write_at_adjacent(f: Seq<u8>, off: int, d1: Seq<u8>, d2: Seq<u8>)
    requires
        0 <= off,
    ensures
        write_at(write_at(f, off, d1), off + d1.len(), d2) == write_at(f, off, d1 + d2),
{
    assert(write_at(write_at(f, off, d1), off + d1.len(), d2) =~= write_at(f, off, d1 + d2));
}

/// The staging files after writing `bytes` for this name and offset: that
/// entry holds the new bytes (created if absent), every other entry as was.
pub open spec fn staging_upsert(
    st: Seq<StagingRec>,
    name: Seq<char>,
    off: int,
    bytes: Seq<u8>,
) -> Seq<StagingRec> {
    if staged_in(st, name, off) {
        st.update(
            staged_index_in(st, name, off),
            StagingRec { filename: name, start_offset: off, bytes },
        )
    } else {
        st.push(StagingRec { filename: name, start_offset: off, bytes })
    }
}

/// Lookups after a staging upsert: the touched key holds the new bytes,
/// every other key is unchanged, and uniqueness is kept.
pub proof fn lemma_staging_upsert(st: Seq<StagingRec>, name: Seq<char>, off: int, bytes: Seq<u8>)
    requires
        staging_unique(st),
    ensures
        ({
            let st1 = staging_upsert(st, name, off, bytes);
            &&& staging_unique(st1)
            &&& staged_in(st1, name, off)
            &&& staged_bytes_in(st1, name, off) == bytes
            &&& forall|nm: Seq<char>, o: int|
                !(nm == name && o == off) ==> (#[trigger] staged_in(st1, nm, o) <==> staged_in(
                    st,
                    nm,
                    o,
                ))
            &&& forall|nm: Seq<char>, o: int|
                !(nm == name && o == off) && staged_in(st, nm, o)
                    ==> #[trigger] staged_bytes_in(st1, nm, o) == staged_bytes_in(st, nm, o)
        }),
{
    let st1 = staging_upsert(st, name, off, bytes);
    let pi = if staged_in(st, name, off) {
        staged_index_in(st, name, off)
    } else {
        st.len() as int
    };
    if staged_in(st, name, off) {
        assert(0 <= pi < st.len() && st[pi].filename == name && st[pi].start_offset == off);
    }
    assert(st1[pi].filename == name && st1[pi].start_offset == off);
    assert(staged_in(st1, name, off));
    assert(forall|i: int| 0 <= i < st1.len() && i != pi ==> #[trigger] st1[i] == st[i]);
    assert forall|i: int| 0 <= i < st1.len() && i != pi implies !((#[trigger] st1[i]).filename
        == name && st1[i].start_offset == off) by {
        if staged_in(st, name, off) {
            if i < pi {
                assert(!(st[i].filename == st[pi].filename && st[i].start_offset
                    == st[pi].start_offset));
            } else {
                assert(!(st[pi].filename == st[i].filename && st[pi].start_offset
                    == st[i].start_offset));
            }
        } else {
            if st[i].filename == name && st[i].start_offset == off {
                assert(staged_in(st, name, off));
            }
        }
    }
    assert forall|i: int, j: int| 0 <= i < j < st1.len() implies !((#[trigger] st1[i]).filename
        == (#[trigger] st1[j]).filename && st1[i].start_offset == st1[j].start_offset) by {
        if i != pi && j != pi {
            assert(st1[i] == st[i]);
            assert(st1[j] == st[j]);
        }
    }
    assert(staged_bytes_in(st1, name, off) == bytes) by {
        let qj = staged_index_in(st1, name, off);
        assert(0 <= qj < st1.len() && st1[qj].filename == name && st1[qj].start_offset == off);
        if qj != pi {
            assert(false);
        }
    }
    assert forall|nm: Seq<char>, o: int| !(nm == name && o == off) implies (#[trigger] staged_in(
        st1,
        nm,
        o,
    ) <==> staged_in(st, nm, o)) by {
        if staged_in(st, nm, o) {
            let qi = staged_index_in(st, nm, o);
            assert(0 <= qi < st.len() && st[qi].filename == nm && st[qi].start_offset == o);
            assert(qi != pi);
            assert(st1[qi] == st[qi]);
            assert(staged_in(st1, nm, o));
        }
        if staged_in(st1, nm, o) {
            let qi = staged_index_in(st1, nm, o);
            assert(0 <= qi < st1.len() && st1[qi].filename == nm && st1[qi].start_offset == o);
            assert(qi != pi);
            assert(st[qi] == st1[qi]);
            assert(staged_in(st, nm, o));
        }
    }
    assert forall|nm: Seq<char>, o: int| !(nm == name && o == off) && staged_in(st, nm, o) implies
        #[trigger] staged_bytes_in(st1, nm, o) == staged_bytes_in(st, nm, o) by {
        let qi = staged_index_in(st, nm, o);
        assert(0 <= qi < st.len() && st[qi].filename == nm && st[qi].start_offset == o);
        assert(qi != pi);
        assert(st1[qi] == st[qi]);
        let qj = staged_index_in(st1, nm, o);
        assert(0 <= qj < st1.len() && st1[qj].filename == nm && st1[qj].start_offset == o);
        if qj != qi {
            if qj == pi {
                assert(false);
            } else {
                assert(st[qj].filename == nm && st[qj].start_offset == o);
                assert(false);
            }
        }
    }
}

/// Updating the same chunk row twice leaves only the second update.
pub proof fn lemma_update_chunk_twice(
    m: StoreModel,
    fid: Seq<char>,
    off: int,
    u1: int,
    d1: Seq<char>,
    t1: int,
    u2: int,
    d2: Seq<char>,
    t2: int,
)
    requires
        store_wf(m),
        has_chunk(m, fid, off),
    ensures
        spec_update_chunk(spec_update_chunk(m, fid, off, u1, d1, t1), fid, off, u2, d2, t2)
            == spec_update_chunk(m, fid, off, u2, d2, t2),
        has_chunk(spec_update_chunk(m, fid, off, u1, d1, t1), fid, off),
        store_wf(m) ==> chunk_index(spec_update_chunk(m, fid, off, u1, d1, t1), fid, off)
            == chunk_index(m, fid, off),
{
    let m1 = spec_update_chunk(m, fid, off, u1, d1, t1);
    let fi = file_index(m, fid);
    let cj = chunk_index(m, fid, off);
    let rows = m.chunks[fi];
    assert(m1.files == m.files);
    assert(file_index(m1, fid) == fi);
    assert(has_file(m, fid));
    assert(0 <= fi < m.files.len());
    assert(0 <= cj < rows.len() && rows[cj].start_offset == off);
    let rows1 = m1.chunks[fi];
    assert(rows1 == rows.update(cj, m1.chunks[fi][cj]));
    assert(rows1.len() == rows.len());
    assert(forall|k: int| 0 <= k < rows.len() ==> (#[trigger] rows1[k]).start_offset == rows[k].start_offset);
    assert(rows1[cj].start_offset == off);
    assert(rows_has(rows1, off));
    assert(has_chunk(m1, fid, off));
    let cj1 = rows_index(rows1, off);
    assert(0 <= cj1 < rows1.len() && rows1[cj1].start_offset == off);
    if cj1 != cj {
        assert(rows[cj1].start_offset == off);
        if cj1 < cj {
            lemma_starts_increasing(rows, cj1, cj);
        } else {
            lemma_starts_increasing(rows, cj, cj1);
        }
        assert(false);
    }
    assert(chunk_index(m1, fid, off) == cj);
    let a = spec_update_chunk(m1, fid, off, u2, d2, t2);
    let b = spec_update_chunk(m, fid, off, u2, d2, t2);
    assert(a.chunks[fi][cj] == b.chunks[fi][cj]);
    assert(a.chunks[fi] =~= b.chunks[fi]);
    assert(a.chunks =~~= b.chunks);
    assert(a =~~= b);
}

/// What one upload call returns: whether the whole file completed, the
/// sanitized name, the byte count this call accounts for, and a digest (the
/// whole-file MD5 on completion, this call's SHA-256 otherwise).
pub struct UploadOutcome {
    pub completed: bool,
    pub filename: String,
    pub size: u64,
    pub checksum: String,
}

/// The file, chunk and status checks an upload call makes before writing.
pub open spec fn target_ok(m: StoreModel, fid: Seq<char>, off: int) -> bool {
    &&& has_file(m, fid)
    &&& m.files[file_index(m, fid)].status == STATUS_REGISTERED
    &&& has_chunk(m, fid, off)
}

/// The absolute position at which a call's bytes begin: the `Content-Range`
/// start when the header is present (`None` when it is garbled), the
/// chunk's own start otherwise.
pub open spec fn call_start_pos(off: int, content_range: Option<Seq<char>>) -> Option<int> {
    match content_range {
        None => Some(off),
        Some(h) => match range_spec(h) {
            Some((a, b)) => Some(a),
            None => None,
        },
    }
}

/// The call's byte range must lie inside its chunk (and fit the machine).
pub open spec fn call_bounds_ok(off: int, chunk_size: int, start_pos: int, cl: int) -> bool {
    &&& off <= start_pos
    &&& start_pos + cl <= off + chunk_size
    &&& start_pos - off + cl <= usize::MAX
}

/// The engine after one upload call wrote its bytes: the staging file holds
/// the delivered bytes spliced in at the in-chunk position; the chunk row
/// holds the new progress and running digest — committed once per buffer,
/// so a body with no buffers leaves the row as it was; nothing else moves.
pub open spec fn written_state(
    e0: EngineModel,
    fid: Seq<char>,
    name: Seq<char>,
    off: int,
    in_chunk: int,
    cl: int,
    bufs: Seq<Seq<u8>>,
    now: int,
) -> EngineModel {
    let data = delivered_bytes(bufs, cl);
    EngineModel {
        store: if bufs.len() == 0 {
            e0.store
        } else {
            spec_update_chunk(
                e0.store,
                fid,
                off,
                in_chunk + data.len(),
                sha256_hex_of(data),
                now,
            )
        },
        staging: staging_upsert(
            e0.staging,
            name,
            off,
            write_at(staged_bytes_in(e0.staging, name, off), in_chunk, data),
        ),
        published: e0.published,
    }
}

impl UploadEngine {
    /// Streams one call's body into the chunk at `start_offset` of the file
    /// `file_id`: seeks the staging file to the call's position, writes and
    /// hashes buffer by buffer, committing progress after each, and, when
    /// the whole file's uploaded sum reaches its total size, flips the file
    /// to PROCESSING and assembles it inline.
    #[verifier::rlimit(100)]
    pub fn upload_chunk(
        &mut self,
        file_id: &str,
        start_offset: u64,
        content_length: u64,
        content_range: Option<&str>,
        body: &Vec<Vec<u8>>,
        now: u64,
    ) -> (r: Result<UploadOutcome, UploadError>)
        requires
            engine_wf(old(self)@),
            now <= MAX_STORE_INT,
        ensures
            engine_wf(final(self)@),
            statuses_advance(old(self)@.store, final(self)@.store),
            ({
                let e0 = old(self)@;
                let m0 = e0.store;
                let fid = file_id@;
                let off = start_offset as int;
                let cl = content_length as int;
                let cr = match content_range {
                    Some(h) => Some(h@),
                    None => None::<Seq<char>>,
                };
                let sp = call_start_pos(off, cr);
                let bufs = bufs_view(body@);
                let fi = file_index(m0, fid);
                let csize = m0.chunks[fi][chunk_index(m0, fid, off)].chunk_size;
                let name = m0.files[fi].filename;
                let e1 = written_state(
                    e0,
                    fid,
                    name,
                    off,
                    sp->Some_0 - off,
                    cl,
                    bufs,
                    now as int,
                );
                let total1 = sum_uploaded_rows(e1.store.chunks[fi]);
                let e2 = EngineModel {
                    store: spec_transition(
                        e1.store,
                        fid,
                        STATUS_PROCESSING as int,
                        None,
                        now as int,
                    ),
                    staging: e1.staging,
                    published: e1.published,
                };
                let data = delivered_bytes(bufs, cl);
                match r {
                    Err(UploadError::NotInitialized) => !initialized(m0) && *final(self) == *old(self),
                    Err(UploadError::NotFound) => initialized(m0) && (!has_file(m0, fid) || (
                    m0.files[fi].status == STATUS_REGISTERED && !has_chunk(m0, fid, off)))
                        && *final(self) == *old(self),
                    Err(UploadError::Conflict) => initialized(m0) && has_file(m0, fid)
                        && m0.files[fi].status != STATUS_REGISTERED && *final(self) == *old(self),
                    Err(UploadError::InvalidArgument) => initialized(m0) && target_ok(m0, fid, off)
                        && (sp is None || !call_bounds_ok(off, csize, sp->Some_0, cl))
                        && *final(self) == *old(self),
                    Ok(out) => initialized(m0) && target_ok(m0, fid, off) && sp is Some
                        && call_bounds_ok(off, csize, sp->Some_0, cl) && out.filename@ == name && (
                    if out.completed {
                        &&& total1 >= m0.files[fi].total_size
                        &&& assemble_ok(e2, final(self)@, fid, now as int)
                        &&& out.checksum@ == md5_hex_of(
                            assembled_bytes(e2, file_index(e2.store, fid)),
                        )
                        &&& out.size == m0.files[fi].total_size
                    } else {
                        &&& total1 < m0.files[fi].total_size
                        &&& final(self)@ == e1
                        &&& out.checksum@ == sha256_hex_of(data)
                        &&& out.size == sp->Some_0 - off + data.len()
                    }),
                    Err(UploadError::DataLoss) => initialized(m0) && target_ok(m0, fid, off) && sp
                        is Some && call_bounds_ok(off, csize, sp->Some_0, cl) && total1
                        >= m0.files[fi].total_size && assemble_mismatch(e2, final(self)@, fid),
                    Err(UploadError::Unavailable) => initialized(m0) && target_ok(m0, fid, off)
                        && sp is Some && call_bounds_ok(off, csize, sp->Some_0, cl) && total1
                        >= m0.files[fi].total_size && (!all_staged(e2, file_index(e2.store, fid))
                        || assembled_bytes(e2, file_index(e2.store, fid)).len() > usize::MAX)
                        && final(self)@ == e2,
                    _ => false,
                }
            }),
    {
        let ghost e0 = self@;
        let ghost fid = file_id@;
        let ghost off_g = start_offset as int;
        if !self.is_initialized() {
            return Err(UploadError::NotInitialized);
        }
        let f = match self.store.get_file(file_id) {
            Some(f) => f,
            None => {
                return Err(UploadError::NotFound);
            },
        };
        let ghost fi = file_index(e0.store, fid);
        if f.status != STATUS_REGISTERED {
            return Err(UploadError::Conflict);
        }
        let rows = match self.store.get_chunks(file_id) {
            Some(rows) => rows,
            None => {
                proof {
                    assert(false);
                }
                return Err(UploadError::NotFound);
            },
        };
        let ghost rows0 = e0.store.chunks[fi];
        let ghost name = e0.store.files[fi].filename;
        let cj = match find_chunk_idx(&rows, start_offset) {
            Some(c) => c,
            None => {
                proof {
                    assert(!rows_has(rows0, off_g));
                }
                return Err(UploadError::NotFound);
            },
        };
        proof {
            assert(rows_view(rows@)[cj as int] == rows0[cj as int]);
            assert(rows_has(rows0, off_g));
            assert(has_chunk(e0.store, fid, off_g));
            let cjs = chunk_index(e0.store, fid, off_g);
            assert(0 <= cjs < rows0.len() && rows0[cjs].start_offset == off_g);
            if cjs != cj as int {
                if cjs < cj as int {
                    lemma_starts_increasing(rows0, cjs, cj as int);
                } else {
                    lemma_starts_increasing(rows0, cj as int, cjs);
                }
                assert(false);
            }
        }
        let chunk_size = rows[cj].chunk_size;
        let start_pos: u64 = match content_range {
            None => start_offset,
            Some(h) => match parse_content_range(h) {
                Some((a, _b)) => a,
                None => {
                    return Err(UploadError::InvalidArgument);
                },
            },
        };
        if start_pos < start_offset {
            return Err(UploadError::InvalidArgument);
        }
        let in_chunk = start_pos - start_offset;
        if content_length > chunk_size || in_chunk > chunk_size - content_length {
            return Err(UploadError::InvalidArgument);
        }
        if content_length > usize::MAX as u64 || usize::MAX as u64 - content_length < in_chunk {
            return Err(UploadError::InvalidArgument);
        }
        let ghost cl = content_length as int;
        let ghost bufs = bufs_view(body@);

        // Open (or create) the staging file and seek to the call's position.
        let found = find_staging(&self.staging, f.filename.as_str(), start_offset);
        let mut stbytes: Vec<u8> = match found {
            Some(i) => crate::fsmodel::take_bytes(&self.staging[i]),
            None => Vec::new(),
        };
        let ghost orig_bytes = staged_bytes_in(e0.staging, name, off_g);
        proof {
            match found {
                Some(i) => {
                    assert(e0.staging[i as int] == self.staging@[i as int]@);
                    assert(staged_in(e0.staging, name, off_g));
                    let si = staged_index_in(e0.staging, name, off_g);
                    assert(0 <= si < e0.staging.len() && e0.staging[si].filename == name
                        && e0.staging[si].start_offset == off_g);
                    if si != i as int {
                        assert(false);
                    }
                    assert(stbytes@ == orig_bytes);
                },
                None => {
                    assert(!staged_in(e0.staging, name, off_g)) by {
                        if staged_in(e0.staging, name, off_g) {
                            let si = staged_index_in(e0.staging, name, off_g);
                            assert(e0.staging[si] == self.staging@[si]@);
                        }
                    }
                    assert(stbytes@ == orig_bytes);
                },
            }
        }

        // Write loop: one pass over the body's buffers; after each buffer
        // the chunk row is committed so a crash loses at most one buffer.
        let mut call_bytes: Vec<u8> = Vec::new();
        let mut written: u64 = 0;
        let nb = body.len();
        let mut bi: usize = 0;
        while bi < nb
            invariant
                engine_wf(e0),
                now <= MAX_STORE_INT,
                0 <= fi < e0.store.files.len(),
                fi < e0.store.chunks.len(),
                fi == file_index(e0.store, fid),
                has_file(e0.store, fid),
                has_chunk(e0.store, fid, off_g),
                cj as int == chunk_index(e0.store, fid, off_g),
                rows0 == e0.store.chunks[fi],
                0 <= cj < rows0.len(),
                rows0[cj as int].start_offset == off_g,
                rows0[cj as int].chunk_size == chunk_size,
                name == e0.store.files[fi].filename,
                fid == file_id@,
                off_g == start_offset as int,
                cl == content_length as int,
                bufs == bufs_view(body@),
                nb == body@.len(),
                in_chunk as int + cl <= chunk_size,
                in_chunk as int + cl <= usize::MAX,
                0 <= bi <= nb,
                written as int == vstd::math::min(
                    cl,
                    concat_bufs(bufs.take(bi as int)).len() as int,
                ),
                call_bytes@ == concat_bufs(bufs.take(bi as int)).take(written as int),
                written <= content_length,
                stbytes@ == write_at(orig_bytes, in_chunk as int, call_bytes@),
                self@.staging == e0.staging,
                self@.published == e0.published,
                self@.store.files == e0.store.files,
                store_wf(self@.store),
                self@.store == (if bi == 0 {
                    e0.store
                } else {
                    spec_update_chunk(
                        e0.store,
                        fid,
                        off_g,
                        in_chunk as int + written,
                        sha256_hex_of(call_bytes@),
                        now as int,
                    )
                }),
            ensures
                written == content_length || bi as int == body@.len(),
                body@.len() > 0 ==> bi >= 1,
            decreases nb - bi,
        {
            let ghost mcur = self@.store;
            let ghost old_written = written;
            let buf = &body[bi];
            let buf_len = buf.len();
            let remaining = content_length - written;
            let take: usize = if (buf_len as u64) <= remaining {
                buf_len
            } else {
                remaining as usize
            };
            let mut part: Vec<u8> = Vec::new();
            let mut k: usize = 0;
            while k < take
                invariant
                    take <= buf@.len(),
                    0 <= k <= take,
                    part@ == buf@.take(k as int),
                decreases take - k,
            {
                part.push(buf[k]);
                proof {
                    assert(part@ =~= buf@.take(k as int + 1));
                }
                k = k + 1;
            }
            proof {
                assert(bufs[bi as int] == buf@);
                assert(bufs.take(bi as int + 1).drop_last() =~= bufs.take(bi as int));
                assert(bufs.take(bi as int + 1).last() == bufs[bi as int]);
                assert(concat_bufs(bufs.take(bi as int + 1)) == concat_bufs(bufs.take(bi as int))
                    + buf@);
                lemma_write_at_adjacent(orig_bytes, in_chunk as int, call_bytes@, part@);
            }
            let ghost old_call = call_bytes@;
            overwrite_at(&mut stbytes, in_chunk as usize + written as usize, part.as_slice());
            crate::fsmodel::append_bytes(&mut call_bytes, &part);
            written = written + take as u64;
            proof {
                let ck = concat_bufs(bufs.take(bi as int));
                let ck1 = concat_bufs(bufs.take(bi as int + 1));
                if (buf_len as u64) <= remaining {
                    assert(part@ =~= buf@);
                    assert(call_bytes@ =~= ck1.take(written as int));
                } else {
                    assert(part@ =~= buf@.take(take as int));
                    assert(call_bytes@ =~= ck1.take(written as int));
                }
                assert(written as int == vstd::math::min(cl, ck1.len() as int));
            }
            let dg = sha256_hex(call_bytes.as_slice());
            proof {
                if bi != 0 {
                    lemma_update_chunk_twice(
                        e0.store,
                        fid,
                        off_g,
                        in_chunk as int + old_written as int,
                        sha256_hex_of(old_call),
                        now as int,
                        in_chunk as int + written as int,
                        sha256_hex_of(call_bytes@),
                        now as int,
                    );
                    assert(file_index(mcur, fid) == fi);
                    assert(chunk_index(mcur, fid, off_g) == cj as int);
                    assert(mcur.chunks[fi][cj as int].chunk_size == rows0[cj as int].chunk_size);
                } else {
                    assert(mcur == e0.store);
                }
                assert(has_chunk(mcur, fid, off_g));
                assert(in_chunk + written <= chunk_size);
            }
            self.store.update_chunk(file_id, start_offset, in_chunk + written, dg, now);
            bi = bi + 1;
            if written == content_length {
                break ;
            }
        }
        proof {
            if written == content_length {
                lemma_concat_take_prefix(bufs, bi as int);
                assert(bufs.take(bufs.len() as int) =~= bufs);
                assert(call_bytes@ =~= delivered_bytes(bufs, cl));
            } else {
                assert(bi as int == bufs.len());
                assert(bufs.take(nb as int) =~= bufs);
                let all = concat_bufs(bufs);
                if cl <= all.len() {
                    assert(written as int == cl);
                } else {
                    assert(written as int == all.len());
                    assert(all.take(all.len() as int) =~= all);
                    assert(call_bytes@ =~= delivered_bytes(bufs, cl));
                }
            }
            assert(call_bytes@ == delivered_bytes(bufs, cl));
            assert(written as int == delivered_bytes(bufs, cl).len());
        }

        // Write back the staging file.
        let ghost data = delivered_bytes(bufs, cl);
        let ghost st_target = staging_upsert(
            e0.staging,
            name,
            off_g,
            write_at(orig_bytes, in_chunk as int, data),
        );
        let newstage = StagingFile {
            filename: f.filename.clone(),
            start_offset,
            bytes: stbytes,
        };
        proof {
            lemma_staging_upsert(
                e0.staging,
                name,
                off_g,
                write_at(orig_bytes, in_chunk as int, data),
            );
        }
        match found {
            Some(i) => {
                proof {
                    assert(staged_in(e0.staging, name, off_g));
                    let si = staged_index_in(e0.staging, name, off_g);
                    assert(0 <= si < e0.staging.len() && e0.staging[si].filename == name
                        && e0.staging[si].start_offset == off_g);
                    if si != i as int {
                        assert(e0.staging[i as int] == self.staging@[i as int]@);
                        assert(false);
                    }
                }
                self.staging.set(i, newstage);
                proof {
                    assert(self@.staging =~= st_target);
                }
            },
            None => {
                proof {
                    assert(!staged_in(e0.staging, name, off_g)) by {
                        if staged_in(e0.staging, name, off_g) {
                            let si = staged_index_in(e0.staging, name, off_g);
                            assert(e0.staging[si] == self.staging@[si]@);
                        }
                    }
                }
                self.staging.push(newstage);
                proof {
                    assert(self@.staging =~= st_target);
                }
            },
        }
        let ghost e1 = written_state(e0, fid, name, off_g, in_chunk as int, cl, bufs, now as int);
        proof {
            assert(self@ =~~= e1);
            lemma_completed_preserved_general(e0, self@);
            assert(engine_wf(self@));
        }

        // Completion check: when every byte of the file is accounted for,
        // claim the REGISTERED -> PROCESSING transition and assemble.
        let total = self.store.sum_uploaded(file_id);
        proof {
            assert(file_index(self@.store, fid) == fi);
            assert(total as int == sum_uploaded_rows(e1.store.chunks[fi]));
        }
        if total >= f.total_size as u64 {
            let ok = self.store.transition_status(
                file_id,
                STATUS_REGISTERED,
                STATUS_PROCESSING,
                None,
                now,
            );
            proof {
                assert(ok);
            }
            let ghost e2 = self@;
            proof {
                assert(e2.store == spec_transition(
                    e1.store,
                    fid,
                    STATUS_PROCESSING as int,
                    None,
                    now as int,
                ));
                assert(e2.staging == e1.staging);
                assert(e2.published == e1.published);
                lemma_completed_preserved_general(e1, e2);
                assert(engine_wf(e2));
                assert(file_index(e2.store, fid) == fi) by {
                    assert(e0.store.files[fi].file_id == fid);
                    assert(e2.store.files[fi].file_id == fid);
                    assert(files_has(e2.store.files, fid));
                    let j = files_index(e2.store.files, fid);
                    assert(0 <= j < e2.store.files.len() && e2.store.files[j].file_id == fid);
                    if j != fi {
                        assert(e2.store.files[j] == e1.store.files[j]);
                        assert(e0.store.files[j].file_id == fid);
                        if j < fi {
                            assert(e0.store.files[j].file_id != e0.store.files[fi].file_id);
                        } else {
                            assert(e0.store.files[fi].file_id != e0.store.files[j].file_id);
                        }
                        assert(false);
                    }
                }
                assert(e2.store.files[fi].status == STATUS_PROCESSING);
            }
            let ares = self.assemble(file_id, now);
            proof {
                assert(statuses_advance(e0.store, e1.store));
                lemma_statuses_advance_trans(e0.store, e1.store, e2.store);
                lemma_statuses_advance_trans(e0.store, e2.store, self@.store);
            }
            match ares {
                Ok(md5) => {
                    Ok(
                        UploadOutcome {
                            completed: true,
                            filename: f.filename,
                            size: f.total_size as u64,
                            checksum: md5,
                        },
                    )
                },
                Err(e) => Err(e),
            }
        } else {
            let dg = sha256_hex(call_bytes.as_slice());
            Ok(
                UploadOutcome {
                    completed: false,
                    filename: f.filename,
                    size: in_chunk + written,
                    checksum: dg,
                },
            )
        }
    }
}

} // verus!
