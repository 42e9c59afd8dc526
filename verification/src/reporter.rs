use vstd::prelude::*;

use crate::errors::UploadError;
use crate::store::{
    file_index, has_file, rows_view, store_wf, sum_uploaded_rows, ChunkRec, FileRec, StoreModel,
    UploadedFile, STATUS_COMPLETED, STATUS_PROCESSING,
};
use crate::engine::UploadEngine;
use crate::strutil::str_eq;
use crate::MAX_STORE_INT;

verus! {

/// Seconds after which a chunk row with no write counts as stalled.
pub const STALE_SECONDS: u64 = 60;

/// Per-chunk progress as the status endpoint reports it.
pub struct ChunkProgress {
    pub start_offset: i64,
    pub end_offset: i64,
    pub uploaded_size: i64,
    pub last_updated: i64,
}

/// Aggregate progress of one registered file.
pub struct UploadState {
    pub id: String,
    pub filename: String,
    pub total_size: u64,
    pub uploaded_size: u64,
    pub checksum: String,
}

/// The aggregate label the status endpoint reports for a file.
#[derive(Debug, Clone, Copy, PartialEq, Eq, Structural)]
pub enum StatusLabel {
    Uploading,
    Paused,
    Processing,
    Completed,
}

impl StatusLabel {
    /// The label's wire form.
    pub fn text(&self) -> (r: &'static str)
        ensures
            *self is Uploading ==> r@ == "uploading"@,
            *self is Paused ==> r@ == "paused"@,
            *self is Processing ==> r@ == "processing"@,
            *self is Completed ==> r@ == "completed"@,
    {
        match self {
            StatusLabel::Uploading => "uploading",
            StatusLabel::Paused => "paused",
            StatusLabel::Processing => "processing",
            StatusLabel::Completed => "completed",
        }
    }
}

/// One file's status report: the label, and the chunk rows while the upload
/// is still in flight.
pub struct FileStatusReport {
    pub file_id: String,
    pub status: StatusLabel,
    pub chunks: Option<Vec<ChunkProgress>>,
}

/// A chunk row last written more than the stale threshold before `now`.
pub open spec fn chunk_stale(c: ChunkRec, now: int) -> bool {
    c.last_updated + STALE_SECONDS < now
}

/// Every chunk row of the group is stale.
pub open spec fn all_stale(rows: Seq<ChunkRec>, now: int) -> bool {
    forall|j: int| 0 <= j < rows.len() ==> chunk_stale(#[trigger] rows[j], now)
}

/// The label reported for file `fi`: its stored status while assembling or
/// done; otherwise `Paused` exactly when every chunk is stale.
pub open spec fn status_label_of(m: StoreModel, fi: int, now: int) -> StatusLabel {
    if m.files[fi].status == STATUS_PROCESSING {
        StatusLabel::Processing
    } else if m.files[fi].status == STATUS_COMPLETED {
        StatusLabel::Completed
    } else if all_stale(m.chunks[fi], now) {
        StatusLabel::Paused
    } else {
        StatusLabel::Uploading
    }
}

/// The views of a vector of file rows.
pub open spec fn files_view(v: Seq<UploadedFile>) -> Seq<FileRec> {
    v.map_values(|f: UploadedFile| f@)
}

/// Whether a row passes the optional status filter.
pub open spec fn status_matches(f: FileRec, flt: Option<i32>) -> bool {
    match flt {
        None => true,
        Some(s) => f.status == s as int,
    }
}

/// The rows passing the status filter, in store order.
pub open spec fn filtered_files(files: Seq<FileRec>, flt: Option<i32>) -> Seq<FileRec>
    decreases files.len(),
{
    if files.len() == 0 {
        Seq::empty()
    } else {
        filtered_files(files.drop_last(), flt) + (if status_matches(files.last(), flt) {
            seq![files.last()]
        } else {
            Seq::empty()
        })
    }
}

/// The column a listing sorts on: byte size, or the update timestamp.
pub open spec fn sort_key(f: FileRec, by_size: bool) -> int {
    if by_size {
        f.total_size
    } else {
        f.last_updated
    }
}

/// Rows pairwise ordered by the sort column, in the asked direction.
pub open spec fn sorted_by(s: Seq<FileRec>, by_size: bool, desc: bool) -> bool {
    forall|i: int, j: int|
        0 <= i < j < s.len() ==> (if desc {
            sort_key(#[trigger] s[i], by_size) >= sort_key(#[trigger] s[j], by_size)
        } else {
            sort_key(#[trigger] s[i], by_size) <= sort_key(#[trigger] s[j], by_size)
        })
}

/// One page of a listing: rows `(page-1)*page_size` up to the page size.
pub open spec fn page_of(s: Seq<FileRec>, page: int, page_size: int) -> Seq<FileRec> {
    let off = (page - 1) * page_size;
    if page_size <= 0 || off >= s.len() {
        Seq::empty()
    } else if off + page_size <= s.len() {
        s.subrange(off, off + page_size)
    } else {
        s.subrange(off, s.len() as int)
    }
}

/// A copy of one file row.
fn copy_file(row: &UploadedFile) -> (r: UploadedFile)
    ensures
        r == *row,
{
    UploadedFile {
        file_id: row.file_id.clone(),
        filename: row.filename.clone(),
        total_size: row.total_size,
        checksum: row.checksum.clone(),
        status: row.status,
        file_path: row.file_path.clone(),
        last_updated: row.last_updated,
    }
}

/// The sort column of one row.
fn key_of(f: &UploadedFile, by_size: bool) -> (r: i64)
    ensures
        r as int == sort_key(f@, by_size),
{
    if by_size {
        f.total_size
    } else {
        f.last_updated
    }
}

/// Stable insertion sort by the chosen column and direction.
fn sort_rows(rows: Vec<UploadedFile>, by_size: bool, desc: bool) -> (r: Vec<UploadedFile>)
    ensures
        files_view(r@).to_multiset() == files_view(rows@).to_multiset(),
        sorted_by(files_view(r@), by_size, desc),
        r@.len() == rows@.len(),
{
    broadcast use vstd::seq_lib::group_to_multiset_ensures;

    let n = rows.len();
    let mut out: Vec<UploadedFile> = Vec::new();
    let mut i: usize = 0;
    proof {
        assert(rows@.take(0) =~= Seq::<UploadedFile>::empty());
        assert(files_view(Seq::<UploadedFile>::empty()) =~= Seq::<FileRec>::empty());
    }
    while i < n
        invariant
            n == rows@.len(),
            0 <= i <= n,
            out@.len() == i,
            files_view(out@).to_multiset() == files_view(rows@.take(i as int)).to_multiset(),
            sorted_by(files_view(out@), by_size, desc),
        decreases n - i,
    {
        broadcast use vstd::seq_lib::group_to_multiset_ensures;

        let x = copy_file(&rows[i]);
        let kx = key_of(&x, by_size);
        let m = out.len();
        let mut p: usize = 0;
        while p < m
            invariant
                m == out@.len(),
                0 <= p <= m,
                kx as int == sort_key(x@, by_size),
                forall|k: int|
                    0 <= k < p ==> (if desc {
                        sort_key(files_view(out@)[k], by_size) >= kx as int
                    } else {
                        sort_key(files_view(out@)[k], by_size) <= kx as int
                    }),
            ensures
                0 <= p <= m,
                forall|k: int|
                    0 <= k < p ==> (if desc {
                        sort_key(files_view(out@)[k], by_size) >= kx as int
                    } else {
                        sort_key(files_view(out@)[k], by_size) <= kx as int
                    }),
                p < m ==> (if desc {
                    sort_key(files_view(out@)[p as int], by_size) < kx as int
                } else {
                    sort_key(files_view(out@)[p as int], by_size) > kx as int
                }),
            decreases m - p,
        {
            let kp = key_of(&out[p], by_size);
            proof {
                assert(files_view(out@)[p as int] == out@[p as int]@);
            }
            if desc {
                if kp < kx {
                    break ;
                }
            } else {
                if kp > kx {
                    break ;
                }
            }
            p = p + 1;
        }
        let ghost old_out = out@;
        out.insert(p, x);
        proof {
            assert(files_view(out@) =~= files_view(old_out).insert(p as int, x@));
            vstd::seq_lib::to_multiset_insert(files_view(old_out), p as int, x@);
            assert(rows@.take(i as int + 1).drop_last() =~= rows@.take(i as int));
            assert(rows@.take(i as int + 1).last() == rows@[i as int]);
            assert(files_view(rows@.take(i as int + 1)) =~= files_view(rows@.take(i as int)).push(
                rows@[i as int]@,
            ));
            assert(files_view(rows@.take(i as int + 1)).to_multiset() =~= files_view(
                rows@.take(i as int),
            ).to_multiset().insert(rows@[i as int]@));
            assert(x@ == rows@[i as int]@);
            assert forall|a: int, b: int| 0 <= a < b < out@.len() implies (if desc {
                sort_key(#[trigger] files_view(out@)[a], by_size) >= sort_key(
                    #[trigger] files_view(out@)[b],
                    by_size,
                )
            } else {
                sort_key(#[trigger] files_view(out@)[a], by_size) <= sort_key(
                    #[trigger] files_view(out@)[b],
                    by_size,
                )
            }) by {
                let fo = files_view(old_out);
                let fn_ = files_view(out@);
                assert(forall|k: int| 0 <= k < p ==> #[trigger] fn_[k] == fo[k]);
                assert(fn_[p as int] == x@);
                assert(forall|k: int|
                    p < k < fn_.len() ==> #[trigger] fn_[k] == fo[k - 1]);
                if p < old_out.len() {
                    assert(if desc {
                        sort_key(fo[p as int], by_size) < kx as int
                    } else {
                        sort_key(fo[p as int], by_size) > kx as int
                    });
                }
            }
        }
        i = i + 1;
    }
    proof {
        assert(rows@.take(n as int) =~= rows@);
    }
    out
}

impl UploadEngine {
    /// The status report for one file: `processing`/`completed` straight
    /// from the store; otherwise `paused` when every chunk's last write is
    /// older than the stale threshold, else `uploading`, with the chunk
    /// rows included.
    pub fn file_status(&self, file_id: &str, now: u64) -> (r: Result<
        FileStatusReport,
        UploadError,
    >)
        requires
            store_wf(self@.store),
            now <= MAX_STORE_INT,
        ensures
            ({
                let m = self@.store;
                let fi = file_index(m, file_id@);
                match r {
                    Ok(rep) => has_file(m, file_id@) && rep.file_id@ == file_id@ && rep.status
                        == status_label_of(m, fi, now as int) && (match rep.chunks {
                        Some(v) => (rep.status is Uploading || rep.status is Paused) && v@.len()
                            == m.chunks[fi].len() && forall|j: int|
                            0 <= j < v@.len() ==> (#[trigger] v@[j]).start_offset as int
                                == m.chunks[fi][j].start_offset && v@[j].end_offset as int
                                == m.chunks[fi][j].end_offset && v@[j].uploaded_size as int
                                == m.chunks[fi][j].uploaded_size && v@[j].last_updated as int
                                == m.chunks[fi][j].last_updated,
                        None => rep.status is Processing || rep.status is Completed,
                    }),
                    Err(UploadError::NotFound) => !has_file(m, file_id@),
                    _ => false,
                }
            }),
    {
        let f = match self.store.get_file(file_id) {
            Some(f) => f,
            None => {
                return Err(UploadError::NotFound);
            },
        };
        if f.status == STATUS_PROCESSING {
            return Ok(
                FileStatusReport {
                    file_id: f.file_id,
                    status: StatusLabel::Processing,
                    chunks: None,
                },
            );
        }
        if f.status == STATUS_COMPLETED {
            return Ok(
                FileStatusReport {
                    file_id: f.file_id,
                    status: StatusLabel::Completed,
                    chunks: None,
                },
            );
        }
        let rows = match self.store.get_chunks(file_id) {
            Some(rows) => rows,
            None => {
                proof {
                    assert(false);
                }
                return Err(UploadError::NotFound);
            },
        };
        let ghost m = self@.store;
        let ghost fi = file_index(m, file_id@);
        let ghost rows0 = m.chunks[fi];
        let n = rows.len();
        let mut stale = true;
        let mut j: usize = 0;
        while j < n
            invariant
                now <= MAX_STORE_INT,
                n == rows@.len(),
                rows_view(rows@) == rows0,
                store_wf(m),
                0 <= fi < m.files.len(),
                fi < m.chunks.len(),
                rows0 == m.chunks[fi],
                0 <= j <= n,
                stale == (forall|k: int| 0 <= k < j ==> chunk_stale(#[trigger] rows0[k], now as int)),
            decreases n - j,
        {
            proof {
                assert(rows0[j as int] == rows@[j as int]@);
                assert(crate::store::chunk_row_wf(m.files[fi], rows0[j as int]));
            }
            if rows[j].last_updated + STALE_SECONDS >= now {
                stale = false;
            }
            j = j + 1;
        }
        let status = if stale {
            StatusLabel::Paused
        } else {
            StatusLabel::Uploading
        };
        let mut progress: Vec<ChunkProgress> = Vec::new();
        let mut k: usize = 0;
        proof {
            assert(store_wf(m));
            assert(0 <= fi < m.files.len());
        }
        while k < n
            invariant
                n == rows@.len(),
                rows_view(rows@) == rows0,
                store_wf(m),
                0 <= fi < m.files.len(),
                fi < m.chunks.len(),
                rows0 == m.chunks[fi],
                0 <= k <= n,
                progress@.len() == k,
                forall|j2: int|
                    0 <= j2 < k ==> (#[trigger] progress@[j2]).start_offset as int
                        == rows0[j2].start_offset && progress@[j2].end_offset as int
                        == rows0[j2].end_offset && progress@[j2].uploaded_size as int
                        == rows0[j2].uploaded_size && progress@[j2].last_updated as int
                        == rows0[j2].last_updated,
            decreases n - k,
        {
            let row = &rows[k];
            proof {
                assert(rows0[k as int] == rows@[k as int]@);
                assert(crate::store::chunk_row_wf(m.files[fi], rows0[k as int]));
                assert(crate::store::file_wf(m.files[fi]));
            }
            progress.push(
                ChunkProgress {
                    start_offset: row.start_offset as i64,
                    end_offset: row.end_offset as i64,
                    uploaded_size: row.uploaded_size as i64,
                    last_updated: row.last_updated as i64,
                },
            );
            k = k + 1;
        }
        Ok(FileStatusReport { file_id: f.file_id, status, chunks: Some(progress) })
    }

    /// A paginated listing: rows passing the status filter, ordered by the
    /// requested column (`size` or `date`; anything else keeps store order,
    /// the insertion order) and direction (`desc`, else ascending), cut to
    /// the requested page. Returns the total count of matching rows with
    /// the page.
    pub fn list_files(
        &self,
        page: u32,
        page_size: u32,
        status: Option<i32>,
        sort_by: &str,
        order: &str,
    ) -> (r: (u64, Vec<UploadedFile>))
        requires
            store_wf(self@.store),
            page >= 1,
        ensures
            ({
                let flt = filtered_files(self@.store.files, status);
                let by_size = sort_by@ == "size"@;
                let by_date = sort_by@ == "date"@;
                let desc = order@ == "desc"@;
                &&& r.0 == flt.len()
                &&& (if by_size || by_date {
                    exists|sorted: Seq<FileRec>|
                        (#[trigger] sorted.to_multiset()) == flt.to_multiset() && sorted_by(
                            sorted,
                            by_size,
                            desc,
                        ) && files_view(r.1@) == page_of(sorted, page as int, page_size as int)
                } else {
                    files_view(r.1@) == page_of(
                        if desc {
                            flt.reverse()
                        } else {
                            flt
                        },
                        page as int,
                        page_size as int,
                    )
                })
            }),
    {
        let ghost all = self@.store.files;
        let n = self.store.files.len();
        let mut filtered: Vec<UploadedFile> = Vec::new();
        let mut i: usize = 0;
        proof {
            assert(all.take(0) =~= Seq::<FileRec>::empty());
            assert(files_view(filtered@) =~= filtered_files(all.take(0), status));
        }
        while i < n
            invariant
                n == self@.store.files.len(),
                all == self@.store.files,
                0 <= i <= n,
                files_view(filtered@) == filtered_files(all.take(i as int), status),
            decreases n - i,
        {
            proof {
                assert(all[i as int] == self.store.files@[i as int]@);
                assert(all.take(i as int + 1).drop_last() =~= all.take(i as int));
                assert(all.take(i as int + 1).last() == all[i as int]);
            }
            let row = &self.store.files[i];
            let keep = match status {
                None => true,
                Some(s) => row.status == s,
            };
            if keep {
                let ghost before = filtered@;
                filtered.push(copy_file(row));
                proof {
                    assert(files_view(filtered@) =~= files_view(before).push(all[i as int]));
                    assert(filtered_files(all.take(i as int + 1), status) =~= filtered_files(
                        all.take(i as int),
                        status,
                    ).push(all[i as int]));
                }
            } else {
                proof {
                    assert(filtered_files(all.take(i as int + 1), status) =~= filtered_files(
                        all.take(i as int),
                        status,
                    ));
                }
            }
            i = i + 1;
        }
        proof {
            assert(all.take(n as int) =~= all);
        }
        let total = filtered.len() as u64;
        let by_size = str_eq(sort_by, "size");
        let by_date = str_eq(sort_by, "date");
        let desc = str_eq(order, "desc");
        let arranged: Vec<UploadedFile> = if by_size || by_date {
            sort_rows(filtered, by_size, desc)
        } else if desc {
            let m = filtered.len();
            let mut rev: Vec<UploadedFile> = Vec::new();
            let mut k: usize = 0;
            while k < m
                invariant
                    m == filtered@.len(),
                    0 <= k <= m,
                    rev@.len() == k,
                    forall|j: int|
                        0 <= j < k ==> #[trigger] rev@[j]@ == filtered@[m - 1 - j]@,
                decreases m - k,
            {
                rev.push(copy_file(&filtered[m - 1 - k]));
                k = k + 1;
            }
            proof {
                assert(files_view(rev@) =~= files_view(filtered@).reverse());
            }
            rev
        } else {
            filtered
        };
        let ghost flt = filtered_files(all, status);
        let m = arranged.len();
        proof {
            assert((page as u64 - 1) as int * (page_size as u64) as int <= 0xffff_ffffu64 as int
                * 0xffff_ffffu64 as int) by (nonlinear_arith)
                requires
                    page >= 1,
                    page as int <= 0xffff_ffffu64 as int + 1,
                    page_size as int <= 0xffff_ffffu64 as int,
            ;
        }
        let off64: u64 = (page as u64 - 1) * (page_size as u64);
        let mut out: Vec<UploadedFile> = Vec::new();
        if page_size > 0 && off64 < m as u64 {
            let off = off64 as usize;
            let end = if m - off < page_size as usize {
                m
            } else {
                off + page_size as usize
            };
            let mut k: usize = off;
            while k < end
                invariant
                    m == arranged@.len(),
                    off <= k <= end <= m,
                    out@.len() == k - off,
                    forall|j: int|
                        0 <= j < out@.len() ==> #[trigger] out@[j]@ == arranged@[off + j]@,
                decreases end - k,
            {
                out.push(copy_file(&arranged[k]));
                k = k + 1;
            }
            proof {
                assert(files_view(out@) =~= page_of(
                    files_view(arranged@),
                    page as int,
                    page_size as int,
                ));
            }
        } else {
            proof {
                assert(files_view(out@) =~= page_of(
                    files_view(arranged@),
                    page as int,
                    page_size as int,
                ));
            }
        }
        proof {
            if by_size || by_date {
                let sorted = files_view(arranged@);
                assert(sorted.to_multiset() == flt.to_multiset() && sorted_by(
                    sorted,
                    by_size,
                    desc,
                ) && files_view(out@) == page_of(sorted, page as int, page_size as int));
            }
        }
        (total, out)
    }

    /// Aggregate progress of one file: its metadata together with the sum
    /// of bytes uploaded over all its chunks.
    pub fn file_progress(&self, file_id: &str) -> (r: Result<UploadState, UploadError>)
        requires
            store_wf(self@.store),
        ensures
            ({
                let m = self@.store;
                let fi = file_index(m, file_id@);
                match r {
                    Ok(st) => has_file(m, file_id@) && st.id@ == file_id@ && st.filename@
                        == m.files[fi].filename && st.total_size as int == m.files[fi].total_size
                        && st.uploaded_size as int == sum_uploaded_rows(m.chunks[fi])
                        && st.checksum@ == m.files[fi].checksum,
                    Err(UploadError::NotFound) => !has_file(m, file_id@),
                    _ => false,
                }
            }),
    {
        let f = match self.store.get_file(file_id) {
            Some(f) => f,
            None => {
                return Err(UploadError::NotFound);
            },
        };
        let uploaded = self.store.sum_uploaded(file_id);
        proof {
            assert(crate::store::file_wf(self@.store.files[file_index(self@.store, file_id@)]));
        }
        Ok(
            UploadState {
                id: f.file_id,
                filename: f.filename,
                total_size: f.total_size as u64,
                uploaded_size: uploaded,
                checksum: f.checksum,
            },
        )
    }
}

} // verus!
