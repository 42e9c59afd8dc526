use vstd::prelude::*;

use crate::digest::{hex_of, md5_hex, md5_hex_of, md5_of};
use crate::engine::{
    completed_file_ok, completed_published, engine_wf, filename_unique, final_path_of,
    published_bytes_in, published_in, published_index_in, published_unique, staged_bytes_in,
    staged_in, staged_index_in, staging_unique, EngineModel, UploadEngine,
};
use crate::errors::UploadError;
use crate::fsmodel::{append_bytes, find_published, find_staging, PublishedFile, PublishedRec, StagingRec};
use crate::store::{
    chunks_wf, file_index, has_file, lemma_starts_increasing, rows_view, spec_transition,
    statuses_advance, store_wf, ChunkRec, STATUS_COMPLETED, STATUS_PROCESSING,
};
use crate::strutil::{eq_ignore_case, lemma_concat_right_injective, str_concat, str_eq_ignore_case};
use crate::MAX_STORE_INT;

verus! {

/// Bytes assembled from the staging files of the first `n` chunks of a
/// file, in ascending chunk order.
pub open spec fn assembled_prefix(
    st: Seq<StagingRec>,
    name: Seq<char>,
    rows: Seq<ChunkRec>,
    n: int,
) -> Seq<u8>
    decreases n,
{
    if n <= 0 {
        Seq::empty()
    } else {
        assembled_prefix(st, name, rows, n - 1) + staged_bytes_in(
            st,
            name,
            rows[n - 1].start_offset,
        )
    }
}

/// All bytes assembled from the staging files of file `fi`.
pub open spec fn assembled_bytes(e: EngineModel, fi: int) -> Seq<u8> {
    assembled_prefix(
        e.staging,
        e.store.files[fi].filename,
        e.store.chunks[fi],
        e.store.chunks[fi].len() as int,
    )
}

/// Every chunk of file `fi` has a staging file.
pub open spec fn all_staged(e: EngineModel, fi: int) -> bool {
    forall|j: int|
        0 <= j < e.store.chunks[fi].len() ==> staged_in(
            e.staging,
            e.store.files[fi].filename,
            (#[trigger] e.store.chunks[fi][j]).start_offset,
        )
}

/// A longer assembled prefix is never shorter.
pub proof fn lemma_assembled_prefix_len_le(
    st: Seq<StagingRec>,
    name: Seq<char>,
    rows: Seq<ChunkRec>,
    j: int,
    n: int,
)
    requires
        j <= n,
    ensures
        assembled_prefix(st, name, rows, j).len() <= assembled_prefix(st, name, rows, n).len(),
    decreases n - j,
{
    if j < n {
        lemma_assembled_prefix_len_le(st, name, rows, j, n - 1);
    }
}

/// The published files after writing `bytes` at `path`: that entry holds the
/// new bytes; every other path is untouched.
pub open spec fn published_upsert(
    ps0: Seq<PublishedRec>,
    ps1: Seq<PublishedRec>,
    path: Seq<char>,
    bytes: Seq<u8>,
) -> bool {
    &&& published_in(ps1, path)
    &&& published_bytes_in(ps1, path) == bytes
    &&& forall|p: Seq<char>| p != path ==> (#[trigger] published_in(ps1, p) <==> published_in(ps0, p))
    &&& forall|p: Seq<char>|
        p != path && published_in(ps0, p) ==> #[trigger] published_bytes_in(ps1, p)
            == published_bytes_in(ps0, p)
}

/// The staging files after assembly consumed one file's chunks: that file's
/// staging entries are gone, every other entry is untouched.
pub open spec fn staging_removed(
    st0: Seq<StagingRec>,
    st1: Seq<StagingRec>,
    name: Seq<char>,
    rows: Seq<ChunkRec>,
) -> bool {
    &&& forall|j: int|
        0 <= j < rows.len() ==> !staged_in(st1, name, (#[trigger] rows[j]).start_offset)
    &&& forall|nm: Seq<char>, off: int|
        #[trigger] staged_in(st1, nm, off) ==> staged_in(st0, nm, off) && staged_bytes_in(
            st1,
            nm,
            off,
        ) == staged_bytes_in(st0, nm, off)
    &&& forall|nm: Seq<char>, off: int|
        #[trigger] staged_in(st0, nm, off) && !(nm == name && exists|j: int|
            0 <= j < rows.len() && (#[trigger] rows[j]).start_offset == off) ==> staged_in(
            st1,
            nm,
            off,
        )
}

/// A successful assembly of the file `fid`: its staging bytes, concatenated
/// in chunk order, stand published at its final path, their MD5 matches the
/// registered digest up to ASCII case, the file is COMPLETED with that path
/// recorded, and its staging files are gone.
pub open spec fn assemble_ok(e0: EngineModel, e1: EngineModel, fid: Seq<char>, now: int) -> bool {
    let fi = file_index(e0.store, fid);
    let f = e0.store.files[fi];
    let path = final_path_of(f.filename);
    let content = assembled_bytes(e0, fi);
    &&& all_staged(e0, fi)
    &&& eq_ignore_case(md5_hex_of(content), f.checksum)
    &&& e1.store == spec_transition(e0.store, fid, STATUS_COMPLETED as int, Some(path), now)
    &&& published_upsert(e0.published, e1.published, path, content)
    &&& staging_removed(e0.staging, e1.staging, f.filename, e0.store.chunks[fi])
}

/// A digest mismatch at assembly: the assembled bytes stand published at the
/// final path for forensics, the staging files are gone, and the store is
/// untouched (the file stays PROCESSING).
pub open spec fn assemble_mismatch(e0: EngineModel, e1: EngineModel, fid: Seq<char>) -> bool {
    let fi = file_index(e0.store, fid);
    let f = e0.store.files[fi];
    let path = final_path_of(f.filename);
    let content = assembled_bytes(e0, fi);
    &&& all_staged(e0, fi)
    &&& !eq_ignore_case(md5_hex_of(content), f.checksum)
    &&& e1.store == e0.store
    &&& published_upsert(e0.published, e1.published, path, content)
    &&& staging_removed(e0.staging, e1.staging, f.filename, e0.store.chunks[fi])
}

impl UploadEngine {
    /// Assembles a file whose chunks are complete: concatenates its staging
    /// files in ascending chunk order, publishes the result at the final
    /// path, verifies the whole-file MD5 against the registered digest, and
    /// on a match flips the file to COMPLETED. Returns the computed digest.
    #[verifier::rlimit(100)]
    pub fn assemble(&mut self, file_id: &str, now: u64) -> (r: Result<String, UploadError>)
        requires
            engine_wf(old(self)@),
            has_file(old(self)@.store, file_id@),
            old(self)@.store.files[file_index(old(self)@.store, file_id@)].status
                == STATUS_PROCESSING,
            now <= MAX_STORE_INT,
        ensures
            engine_wf(final(self)@),
            statuses_advance(old(self)@.store, final(self)@.store),
            match r {
                Ok(digest) => digest@ == md5_hex_of(
                    assembled_bytes(old(self)@, file_index(old(self)@.store, file_id@)),
                ) && assemble_ok(old(self)@, final(self)@, file_id@, now as int),
                Err(UploadError::DataLoss) => assemble_mismatch(old(self)@, final(self)@, file_id@),
                Err(UploadError::Unavailable) => (!all_staged(
                    old(self)@,
                    file_index(old(self)@.store, file_id@),
                ) || assembled_bytes(old(self)@, file_index(old(self)@.store, file_id@)).len()
                    > usize::MAX) && *final(self) == *old(self),
                _ => false,
            },
    {
        let ghost e0 = self@;
        let ghost fi = file_index(e0.store, file_id@);
        let f = match self.store.get_file(file_id) {
            Some(f) => f,
            None => {
                proof {
                    assert(false);
                }
                return Err(UploadError::Unavailable);
            },
        };
        let rows = match self.store.get_chunks(file_id) {
            Some(rows) => rows,
            None => {
                proof {
                    assert(false);
                }
                return Err(UploadError::Unavailable);
            },
        };
        let ghost rows0 = e0.store.chunks[fi];
        let ghost name = e0.store.files[fi].filename;
        proof {
            assert(rows_view(rows@) == rows0);
            assert(f@.filename == name);
            assert(chunks_wf(e0.store.files[fi], rows0));
        }
        let n = rows.len();

        // First pass: every chunk must have a staging file, and the
        // assembled length must fit the machine.
        let mut total_len: u128 = 0;
        let mut j: usize = 0;
        while j < n
            invariant
                engine_wf(e0),
                n == rows@.len(),
                rows_view(rows@) == rows0,
                0 <= fi < e0.store.files.len(),
                fi < e0.store.chunks.len(),
                fi == file_index(e0.store, file_id@),
                name == e0.store.files[fi].filename,
                rows0 == e0.store.chunks[fi],
                f@.filename == name,
                self == old(self),
                self@ == e0,
                0 <= j <= n,
                forall|k: int|
                    0 <= k < j ==> staged_in(e0.staging, name, (#[trigger] rows0[k]).start_offset),
                total_len <= usize::MAX,
                total_len as int == assembled_prefix(e0.staging, name, rows0, j as int).len(),
            decreases n - j,
        {
            let idx = match find_staging(&self.staging, f.filename.as_str(), rows[j].start_offset)
                {
                Some(i) => i,
                None => {
                    proof {
                        assert(rows0[j as int] == rows@[j as int]@);
                        assert(!staged_in(e0.staging, name, rows0[j as int].start_offset));
                        assert(!all_staged(e0, fi));
                    }
                    return Err(UploadError::Unavailable);
                },
            };
            proof {
                assert(e0.staging[idx as int] == self.staging@[idx as int]@);
                assert(rows0[j as int] == rows@[j as int]@);
                assert(staged_in(e0.staging, name, rows0[j as int].start_offset));
                let si = staged_index_in(e0.staging, name, rows0[j as int].start_offset);
                assert(0 <= si < e0.staging.len() && e0.staging[si].filename == name
                    && e0.staging[si].start_offset == rows0[j as int].start_offset);
                if si != idx as int {
                    assert(false);
                }
                assert(staged_bytes_in(e0.staging, name, rows0[j as int].start_offset)
                    == self.staging@[idx as int]@.bytes);
                assert(assembled_prefix(e0.staging, name, rows0, j as int + 1)
                    == assembled_prefix(e0.staging, name, rows0, j as int) + staged_bytes_in(
                    e0.staging,
                    name,
                    rows0[j as int].start_offset,
                ));
            }
            let len_j = self.staging[idx].bytes.len();
            let new_total: u128 = total_len + (len_j as u128);
            if new_total > usize::MAX as u128 {
                proof {
                    lemma_assembled_prefix_len_le(e0.staging, name, rows0, j as int + 1, n as int);
                    assert(assembled_bytes(e0, fi).len() > usize::MAX);
                }
                return Err(UploadError::Unavailable);
            }
            total_len = new_total;
            j = j + 1;
        }

        // Second pass: concatenate the staging files in chunk order,
        // consuming each.
        let ghost whole_len = assembled_prefix(e0.staging, name, rows0, n as int).len();
        let mut assembled: Vec<u8> = Vec::new();
        let mut j2: usize = 0;
        while j2 < n
            invariant
                engine_wf(e0),
                n == rows@.len(),
                rows_view(rows@) == rows0,
                0 <= fi < e0.store.files.len(),
                fi < e0.store.chunks.len(),
                name == e0.store.files[fi].filename,
                rows0 == e0.store.chunks[fi],
                chunks_wf(e0.store.files[fi], rows0),
                f@.filename == name,
                0 <= j2 <= n,
                forall|k: int|
                    0 <= k < n ==> staged_in(e0.staging, name, (#[trigger] rows0[k]).start_offset),
                whole_len == assembled_prefix(e0.staging, name, rows0, n as int).len(),
                whole_len <= usize::MAX,
                assembled@ == assembled_prefix(e0.staging, name, rows0, j2 as int),
                assembled@.len() <= whole_len,
                self@.store == e0.store,
                self@.published == e0.published,
                staging_unique(self@.staging),
                forall|i: int|
                    0 <= i < self@.staging.len() ==> #[trigger] staged_in(
                        e0.staging,
                        self@.staging[i].filename,
                        self@.staging[i].start_offset,
                    ) && staged_bytes_in(
                        e0.staging,
                        self@.staging[i].filename,
                        self@.staging[i].start_offset,
                    ) == self@.staging[i].bytes,
                forall|k: int|
                    0 <= k < j2 ==> !staged_in(
                        self@.staging,
                        name,
                        (#[trigger] rows0[k]).start_offset,
                    ),
                forall|nm: Seq<char>, off: int|
                    #[trigger] staged_in(e0.staging, nm, off) && !(nm == name && exists|k: int|
                        0 <= k < j2 && (#[trigger] rows0[k]).start_offset == off) ==> staged_in(
                        self@.staging,
                        nm,
                        off,
                    ) && staged_bytes_in(self@.staging, nm, off) == staged_bytes_in(
                        e0.staging,
                        nm,
                        off,
                    ),
            decreases n - j2,
        {
            let ghost stc = self@.staging;
            let off = rows[j2].start_offset;
            proof {
                assert(rows0[j2 as int] == rows@[j2 as int]@);
                assert(staged_in(e0.staging, name, off as int));
                assert forall|k: int| 0 <= k < j2 implies (#[trigger] rows0[k]).start_offset
                    != off as int by {
                    lemma_starts_increasing(rows0, k, j2 as int);
                }
                assert(staged_in(stc, name, off as int));
            }
            let idx = match find_staging(&self.staging, f.filename.as_str(), off) {
                Some(i) => i,
                None => {
                    proof {
                        let si = staged_index_in(stc, name, off as int);
                        assert(0 <= si < stc.len() && stc[si].filename == name
                            && stc[si].start_offset == off as int);
                        assert(stc[si] == self.staging@[si]@);
                        assert(false);
                    }
                    return Err(UploadError::Unavailable);
                },
            };
            proof {
                assert(stc[idx as int] == self.staging@[idx as int]@);
                let si = staged_index_in(stc, name, off as int);
                assert(0 <= si < stc.len() && stc[si].filename == name && stc[si].start_offset
                    == off as int);
                if si != idx as int {
                    assert(false);
                }
                assert(stc[idx as int].bytes == staged_bytes_in(stc, name, off as int));
                assert(staged_bytes_in(stc, name, off as int) == staged_bytes_in(
                    e0.staging,
                    name,
                    off as int,
                ));
                assert(assembled_prefix(e0.staging, name, rows0, j2 as int + 1)
                    == assembled_prefix(e0.staging, name, rows0, j2 as int) + staged_bytes_in(
                    e0.staging,
                    name,
                    off as int,
                ));
                lemma_assembled_prefix_len_le(e0.staging, name, rows0, j2 as int + 1, n as int);
            }
            let sf = self.staging.remove(idx);
            append_bytes(&mut assembled, &sf.bytes);
            proof {
                assert(self@.staging =~= stc.remove(idx as int));
                assert(assembled@ == assembled_prefix(e0.staging, name, rows0, j2 as int + 1));
                assert forall|nm: Seq<char>, off2: int|
                    #[trigger] staged_in(e0.staging, nm, off2) && !(nm == name && exists|k: int|
                        0 <= k < j2 + 1 && (#[trigger] rows0[k]).start_offset == off2) implies staged_in(
                    self@.staging,
                    nm,
                    off2,
                ) && staged_bytes_in(self@.staging, nm, off2) == staged_bytes_in(
                    e0.staging,
                    nm,
                    off2,
                ) by {
                    assert(!(nm == name && off2 == off as int));
                    assert(staged_in(stc, nm, off2) && staged_bytes_in(stc, nm, off2)
                        == staged_bytes_in(e0.staging, nm, off2));
                    let si2 = staged_index_in(stc, nm, off2);
                    assert(0 <= si2 < stc.len() && stc[si2].filename == nm && stc[si2].start_offset
                        == off2);
                    assert(si2 != idx as int) by {
                        if si2 == idx as int {
                            assert(nm == name && off2 == off as int);
                        }
                    }
                    let ni = if si2 < idx as int {
                        si2
                    } else {
                        si2 - 1
                    };
                    assert(self@.staging[ni] == stc[si2]);
                    assert(staged_in(self@.staging, nm, off2));
                    let nj = staged_index_in(self@.staging, nm, off2);
                    assert(0 <= nj < self@.staging.len() && self@.staging[nj].filename == nm
                        && self@.staging[nj].start_offset == off2);
                    if nj != ni {
                        assert(false);
                    }
                }
                assert forall|k: int| 0 <= k < j2 + 1 implies !staged_in(
                    self@.staging,
                    name,
                    (#[trigger] rows0[k]).start_offset,
                ) by {
                    let off2 = rows0[k].start_offset;
                    if staged_in(self@.staging, name, off2) {
                        let nj = staged_index_in(self@.staging, name, off2);
                        assert(0 <= nj < self@.staging.len() && self@.staging[nj].filename == name
                            && self@.staging[nj].start_offset == off2);
                        let oi = if nj < idx as int {
                            nj
                        } else {
                            nj + 1
                        };
                        assert(stc[oi] == self@.staging[nj]);
                        if k < j2 {
                            assert(staged_in(stc, name, off2));
                            assert(!staged_in(stc, name, off2));
                        } else {
                            assert(off2 == off as int);
                            assert(oi != idx as int);
                            assert(stc[idx as int].filename == name && stc[idx as int].start_offset
                                == off as int);
                            if oi < idx as int {
                                assert(!(stc[oi].filename == stc[idx as int].filename && stc[oi].start_offset
                                    == stc[idx as int].start_offset));
                            } else {
                                assert(!(stc[idx as int].filename == stc[oi].filename
                                    && stc[idx as int].start_offset == stc[oi].start_offset));
                            }
                            assert(false);
                        }
                    }
                }
            }
            j2 = j2 + 1;
        }

        // Digest, publication, and the completion transition.
        let computed = md5_hex(assembled.as_slice());
        let path = str_concat("uploads/", f.filename.as_str());
        let ghost content = assembled_bytes(e0, fi);
        let ghost st1 = self@.staging;
        let ghost ps1 = self@.published;
        proof {
            assert(assembled@ == content);
            assert(path@ == final_path_of(name));
            assert(staging_removed(e0.staging, st1, name, rows0));
        }
        let matched = str_eq_ignore_case(computed.as_str(), f.checksum.as_str());
        match find_published(&self.published, path.as_str()) {
            Some(pi) => {
                proof {
                    assert(ps1[pi as int] == self.published@[pi as int]@);
                    assert(published_in(ps1, path@));
                    let qi = published_index_in(ps1, path@);
                    assert(0 <= qi < ps1.len() && ps1[qi].path == path@);
                    if qi != pi as int {
                        assert(false);
                    }
                }
                self.published.set(pi, PublishedFile { path: path.clone(), bytes: assembled });
                proof {
                    assert(self@.published =~= ps1.update(
                        pi as int,
                        PublishedRec { path: path@, bytes: content },
                    ));
                    lemma_upsert_published(ps1, self@.published, path@, content, true);
                }
            },
            None => {
                proof {
                    assert(!published_in(ps1, path@)) by {
                        if published_in(ps1, path@) {
                            let qi = published_index_in(ps1, path@);
                            assert(0 <= qi < ps1.len() && ps1[qi].path == path@);
                            assert(ps1[qi] == self.published@[qi]@);
                        }
                    }
                }
                self.published.push(PublishedFile { path: path.clone(), bytes: assembled });
                proof {
                    assert(self@.published =~= ps1.push(
                        PublishedRec { path: path@, bytes: content },
                    ));
                    lemma_upsert_published(ps1, self@.published, path@, content, false);
                }
            },
        }
        proof {
            assert(published_upsert(e0.published, self@.published, path@, content));
            assert(self@.staging == st1);
        }
        let ghost e2 = self@;
        if !matched {
            proof {
                assert(self@.store == e0.store);
                lemma_wf_after_publish(e0, self@, fi, path@, content);
            }
            return Err(UploadError::DataLoss);
        }
        let ok = self.store.transition_status(
            file_id,
            STATUS_PROCESSING,
            STATUS_COMPLETED,
            Some(&path),
            now,
        );
        proof {
            assert(ok);
            assert(self@.staging == e2.staging);
            assert(self@.published == e2.published);
            lemma_wf_after_complete(e0, e2, self@, fi, file_id@, path@, content, now as int);
        }
        Ok(computed)
    }
}

/// After replacing (`existing`) or appending the published entry at `path`,
/// lookups at `path` yield the new bytes and lookups elsewhere are
/// unchanged.
proof fn lemma_upsert_published(
    ps0: Seq<PublishedRec>,
    ps1: Seq<PublishedRec>,
    path: Seq<char>,
    bytes: Seq<u8>,
    existing: bool,
)
    requires
        published_unique(ps0),
        existing ==> published_in(ps0, path) && ps1 == ps0.update(
            published_index_in(ps0, path),
            PublishedRec { path, bytes },
        ),
        !existing ==> !published_in(ps0, path) && ps1 == ps0.push(
            PublishedRec { path, bytes },
        ),
    ensures
        published_upsert(ps0, ps1, path, bytes),
        published_unique(ps1),
{
    let pi = if existing {
        published_index_in(ps0, path)
    } else {
        ps0.len() as int
    };
    if existing {
        assert(0 <= pi < ps0.len() && ps0[pi].path == path);
    }
    assert(ps1[pi].path == path);
    assert(published_in(ps1, path));
    assert(forall|i: int| 0 <= i < ps1.len() && i != pi ==> #[trigger] ps1[i] == ps0[i]);
    assert forall|i: int| 0 <= i < ps1.len() && i != pi implies (#[trigger] ps1[i]).path != path by {
        if existing {
            assert(ps0[i].path != ps0[pi].path || i == pi);
            if i < pi {
                assert(ps0[i].path != ps0[pi].path);
            } else if i > pi {
                assert(ps0[pi].path != ps0[i].path);
            }
        } else {
            if ps0[i].path == path {
                assert(published_in(ps0, path));
            }
        }
    }
    assert forall|i: int, j: int| 0 <= i < j < ps1.len() implies (#[trigger] ps1[i]).path != (
    #[trigger] ps1[j]).path by {
        if i != pi && j != pi {
            assert(ps1[i] == ps0[i]);
            assert(ps1[j] == ps0[j]);
        }
    }
    assert(published_bytes_in(ps1, path) == bytes) by {
        let qj = published_index_in(ps1, path);
        assert(0 <= qj < ps1.len() && ps1[qj].path == path);
        if qj != pi {
            assert(false);
        }
    }
    assert forall|p: Seq<char>| p != path implies (#[trigger] published_in(ps1, p)
        <==> published_in(ps0, p)) by {
        if published_in(ps0, p) {
            let qi = published_index_in(ps0, p);
            assert(0 <= qi < ps0.len() && ps0[qi].path == p);
            assert(qi != pi);
            assert(ps1[qi] == ps0[qi]);
            assert(published_in(ps1, p));
        }
        if published_in(ps1, p) {
            let qi = published_index_in(ps1, p);
            assert(0 <= qi < ps1.len() && ps1[qi].path == p);
            assert(qi != pi);
            assert(ps0[qi] == ps1[qi]);
            assert(published_in(ps0, p));
        }
    }
    assert forall|p: Seq<char>| p != path && published_in(ps0, p) implies
        #[trigger] published_bytes_in(ps1, p) == published_bytes_in(ps0, p) by {
        let qi = published_index_in(ps0, p);
        assert(0 <= qi < ps0.len() && ps0[qi].path == p);
        assert(qi != pi);
        assert(ps1[qi] == ps0[qi]);
        let qj = published_index_in(ps1, p);
        assert(0 <= qj < ps1.len() && ps1[qj].path == p);
        if qj != qi {
            if qj == pi {
                assert(false);
            } else {
                assert(ps0[qj].path == p);
                assert(false);
            }
        }
    }
}

/// Publishing at file `fi`'s final path while `fi` is not COMPLETED keeps
/// every completed file verified: a uniquely-named completed file never
/// shares that path.
proof fn lemma_wf_after_publish(
    e0: EngineModel,
    e2: EngineModel,
    fi: int,
    path: Seq<char>,
    content: Seq<u8>,
)
    requires
        engine_wf(e0),
        0 <= fi < e0.store.files.len(),
        e0.store.files[fi].status != STATUS_COMPLETED,
        path == final_path_of(e0.store.files[fi].filename),
        e2.store == e0.store,
        staging_unique(e2.staging),
        published_upsert(e0.published, e2.published, path, content),
        published_unique(e2.published),
    ensures
        engine_wf(e2),
{
    assert forall|i: int|
        0 <= i < e2.store.files.len() && (#[trigger] e2.store.files[i]).status == STATUS_COMPLETED
            && filename_unique(e2.store, i) implies completed_file_ok(e2, e2.store.files[i]) by {
        let g = e2.store.files[i];
        assert(g == e0.store.files[i]);
        assert(filename_unique(e0.store, i));
        assert(completed_file_ok(e0, g));
        assert(g.file_path != path) by {
            if g.file_path == path {
                lemma_concat_right_injective("uploads/"@, g.filename, e0.store.files[fi].filename);
                assert(i != fi);
                assert(e0.store.files[fi].filename != g.filename);
                assert(false);
            }
        }
        assert(published_in(e2.published, g.file_path));
        assert(published_bytes_in(e2.published, g.file_path) == published_bytes_in(
            e0.published,
            g.file_path,
        ));
    }
}

/// Completing file `fi` after publishing its verified bytes at its final
/// path re-establishes the engine invariant.
proof fn lemma_wf_after_complete(
    e0: EngineModel,
    e2: EngineModel,
    e3: EngineModel,
    fi: int,
    fid: Seq<char>,
    path: Seq<char>,
    content: Seq<u8>,
    now: int,
)
    requires
        engine_wf(e0),
        0 <= fi < e0.store.files.len(),
        fi == file_index(e0.store, fid),
        e0.store.files[fi].status == STATUS_PROCESSING,
        path == final_path_of(e0.store.files[fi].filename),
        eq_ignore_case(hex_of(md5_of(content)), e0.store.files[fi].checksum),
        e2.store == e0.store,
        published_upsert(e0.published, e2.published, path, content),
        published_unique(e2.published),
        staging_unique(e2.staging),
        e3.staging == e2.staging,
        e3.published == e2.published,
        e3.store == spec_transition(e0.store, fid, STATUS_COMPLETED as int, Some(path), now),
        store_wf(e3.store),
    ensures
        engine_wf(e3),
{
    assert forall|i: int|
        0 <= i < e3.store.files.len() && (#[trigger] e3.store.files[i]).status == STATUS_COMPLETED
            && filename_unique(e3.store, i) implies completed_file_ok(e3, e3.store.files[i]) by {
        if i == fi {
            let g = e3.store.files[fi];
            assert(g.file_path == path);
            assert(g.filename == e0.store.files[fi].filename);
            assert(g.checksum == e0.store.files[fi].checksum);
            assert(published_in(e3.published, path));
            assert(published_bytes_in(e3.published, path) == content);
        } else {
            let g = e3.store.files[i];
            assert(g == e0.store.files[i]);
            assert(e3.store.files.len() == e0.store.files.len());
            assert forall|j: int| 0 <= j < e0.store.files.len() && j != i implies (
            #[trigger] e0.store.files[j]).filename != e0.store.files[i].filename by {
                assert(e3.store.files[j].filename == e0.store.files[j].filename);
                assert(e3.store.files[i].filename == e0.store.files[i].filename);
                assert(e3.store.files[j].filename != e3.store.files[i].filename);
            }
            assert(filename_unique(e0.store, i));
            assert(completed_file_ok(e0, g));
            assert(g.file_path != path) by {
                if g.file_path == path {
                    lemma_concat_right_injective(
                        "uploads/"@,
                        g.filename,
                        e0.store.files[fi].filename,
                    );
                    assert(e0.store.files[fi].filename != g.filename);
                    assert(false);
                }
            }
            assert(published_in(e3.published, g.file_path));
            assert(published_bytes_in(e3.published, g.file_path) == published_bytes_in(
                e0.published,
                g.file_path,
            ));
        }
    }
}

} // verus!
