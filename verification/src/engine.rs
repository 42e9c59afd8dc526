use vstd::prelude::*;

use crate::digest::{hex_of, md5_of};
use crate::errors::UploadError;
use crate::fsmodel::{PublishedFile, PublishedRec, StagingFile, StagingRec};
use crate::naming::{fresh_file_id, sanitize_name, sanitized_of};
use crate::parse::{dec_value, is_dec_u64, parse_u64};
use crate::planner::{chunk_end, chunk_start, plan_chunks, ChunkInfo};
use crate::store::{
    chunk_row_wf, chunks_wf, config_value_or, file_wf, has_file, initialized, rows_view,
    spec_register,
    statuses_advance, store_wf, ChunkRec, ChunkRow, FileRec, Store, StoreModel, UploadedFile,
    STATUS_COMPLETED, STATUS_REGISTERED,
};
use crate::strutil::{eq_ignore_case, str_eq};
use crate::{DEFAULT_CHUNK_SIZE, MAX_STORE_INT};

verus! {

/// The upload core: the durable store, the per-chunk staging files, and the
/// published (assembled) files.
pub struct UploadEngine {
    pub store: Store,
    pub staging: Vec<StagingFile>,
    pub published: Vec<PublishedFile>,
}

/// Mathematical image of the whole engine.
#[verifier::ext_equal]
pub struct EngineModel {
    pub store: StoreModel,
    pub staging: Seq<StagingRec>,
    pub published: Seq<PublishedRec>,
}

impl View for UploadEngine {
    type V = EngineModel;

    open spec fn view(&self) -> EngineModel {
        EngineModel {
            store: self.store@,
            staging: self.staging@.map_values(|s: StagingFile| s@),
            published: self.published@.map_values(|p: PublishedFile| p@),
        }
    }
}

/// Whether a staging file exists in `st` for this name and offset.
pub open spec fn staged_in(st: Seq<StagingRec>, name: Seq<char>, off: int) -> bool {
    exists|i: int|
        0 <= i < st.len() && (#[trigger] st[i]).filename == name && st[i].start_offset == off
}

/// Index in `st` of the staging file for this name and offset.
pub open spec fn staged_index_in(st: Seq<StagingRec>, name: Seq<char>, off: int) -> int {
    choose|i: int|
        0 <= i < st.len() && (#[trigger] st[i]).filename == name && st[i].start_offset == off
}

/// Bytes held in `st` for this name and offset; empty if none.
pub open spec fn staged_bytes_in(st: Seq<StagingRec>, name: Seq<char>, off: int) -> Seq<u8> {
    if staged_in(st, name, off) {
        st[staged_index_in(st, name, off)].bytes
    } else {
        Seq::empty()
    }
}

/// Whether a staging file exists for this name and offset.
pub open spec fn has_staging(e: EngineModel, name: Seq<char>, off: int) -> bool {
    staged_in(e.staging, name, off)
}

/// Index of the staging file for this name and offset.
pub open spec fn staging_index(e: EngineModel, name: Seq<char>, off: int) -> int {
    staged_index_in(e.staging, name, off)
}

/// Bytes held by the staging file for this name and offset; empty if none.
pub open spec fn staging_bytes(e: EngineModel, name: Seq<char>, off: int) -> Seq<u8> {
    staged_bytes_in(e.staging, name, off)
}

/// Whether `ps` holds a published file at this path.
pub open spec fn published_in(ps: Seq<PublishedRec>, path: Seq<char>) -> bool {
    exists|i: int| 0 <= i < ps.len() && (#[trigger] ps[i]).path == path
}

/// Index in `ps` of the published file at this path.
pub open spec fn published_index_in(ps: Seq<PublishedRec>, path: Seq<char>) -> int {
    choose|i: int| 0 <= i < ps.len() && (#[trigger] ps[i]).path == path
}

/// Bytes in `ps` of the published file at this path; empty if none.
pub open spec fn published_bytes_in(ps: Seq<PublishedRec>, path: Seq<char>) -> Seq<u8> {
    if published_in(ps, path) {
        ps[published_index_in(ps, path)].bytes
    } else {
        Seq::empty()
    }
}

/// Whether a published file exists at this path.
pub open spec fn has_published(e: EngineModel, path: Seq<char>) -> bool {
    published_in(e.published, path)
}

/// Index of the published file at this path.
pub open spec fn published_index(e: EngineModel, path: Seq<char>) -> int {
    published_index_in(e.published, path)
}

/// Bytes of the published file at this path; empty if none.
pub open spec fn published_bytes(e: EngineModel, path: Seq<char>) -> Seq<u8> {
    published_bytes_in(e.published, path)
}

/// Staging files keyed uniquely by name and offset.
pub open spec fn staging_unique(st: Seq<StagingRec>) -> bool {
    forall|i: int, j: int|
        0 <= i < j < st.len() ==> !((#[trigger] st[i]).filename == (#[trigger] st[j]).filename
            && st[i].start_offset == st[j].start_offset)
}

/// Published files keyed uniquely by path.
pub open spec fn published_unique(ps: Seq<PublishedRec>) -> bool {
    forall|i: int, j: int| 0 <= i < j < ps.len() ==> (#[trigger] ps[i]).path != (#[trigger] ps[j]).path
}

/// The final path of a file: the uploads directory plus its sanitized name.
pub open spec fn final_path_of(filename: Seq<char>) -> Seq<char> {
    "uploads/"@ + filename
}

/// No other registered file shares the sanitized name of file `i`.
pub open spec fn filename_unique(m: StoreModel, i: int) -> bool {
    forall|j: int|
        0 <= j < m.files.len() && j != i ==> (#[trigger] m.files[j]).filename != m.files[i].filename
}

/// A completed file has its assembled bytes published at its recorded path
/// and their MD5 matches its recorded digest up to ASCII case.
pub open spec fn completed_file_ok(e: EngineModel, f: FileRec) -> bool {
    &&& f.file_path == final_path_of(f.filename)
    &&& has_published(e, f.file_path)
    &&& eq_ignore_case(hex_of(md5_of(published_bytes(e, f.file_path))), f.checksum)
}

/// Every completed file whose name no other file shares is published with a
/// matching digest. (Two files registered under one sanitized name share
/// disk paths, so the later one may overwrite the earlier one's bytes.)
pub open spec fn completed_published(e: EngineModel) -> bool {
    forall|i: int|
        0 <= i < e.store.files.len() && (#[trigger] e.store.files[i]).status == STATUS_COMPLETED
            && filename_unique(e.store, i) ==> completed_file_ok(e, e.store.files[i])
}

/// Engine invariant: a well-formed store, staging files and published files
/// with unique keys, and every uniquely-named completed file verified.
pub open spec fn engine_wf(e: EngineModel) -> bool {
    &&& store_wf(e.store)
    &&& staging_unique(e.staging)
    &&& published_unique(e.published)
    &&& completed_published(e)
}

/// The chunk length the planner uses: the configured `chunk_size` when it is
/// a positive decimal number, the default otherwise.
pub open spec fn effective_chunk_size(m: StoreModel) -> int {
    let v = config_value_or(m, "chunk_size"@, ""@);
    if is_dec_u64(v) && dec_value(v) >= 1 {
        dec_value(v)
    } else {
        DEFAULT_CHUNK_SIZE as int
    }
}

/// The metadata row a registration inserts.
pub open spec fn registered_file_rec(
    fid: Seq<char>,
    name: Seq<char>,
    total: int,
    checksum: Seq<char>,
    now: int,
) -> FileRec {
    FileRec {
        file_id: fid,
        filename: name,
        total_size: total,
        checksum,
        status: STATUS_REGISTERED as int,
        file_path: Seq::empty(),
        last_updated: now,
    }
}

/// The progress row a registration inserts for chunk `i`.
pub open spec fn planned_row(fid: Seq<char>, total: int, cs: int, now: int, i: int) -> ChunkRec {
    ChunkRec {
        file_id: fid,
        start_offset: chunk_start(cs, i),
        end_offset: chunk_end(total, cs, i),
        chunk_size: chunk_end(total, cs, i) - chunk_start(cs, i) + 1,
        uploaded_size: 0,
        chunk_digest: Seq::empty(),
        last_updated: now,
    }
}

/// What a successful registration returns: the fresh identifier and the
/// chunk plan.
pub struct UploadPlan {
    pub file_id: String,
    pub filename: String,
    pub total_size: u64,
    pub chunk_size: u64,
    pub total_chunks: u64,
    pub chunks: Vec<ChunkInfo>,
}

/// A successful registration: the plan describes the partition of
/// `[0, total)` under the configured chunk size, and the store gains exactly
/// the new metadata row and its chunk rows.
pub open spec fn register_ok(
    e0: EngineModel,
    e1: EngineModel,
    plan: UploadPlan,
    raw: Seq<char>,
    total: int,
    checksum: Seq<char>,
    now: int,
) -> bool {
    let fid = plan.file_id@;
    let name = sanitized_of(raw);
    let cs = effective_chunk_size(e0.store);
    let n = plan.chunks@.len() as int;
    &&& !has_file(e0.store, fid)
    &&& plan.filename@ == name
    &&& plan.total_size as int == total
    &&& plan.chunk_size as int == cs
    &&& plan.total_chunks as int == n
    &&& n >= 1
    &&& forall|i: int|
        0 <= i < n ==> (#[trigger] plan.chunks@[i]).start_offset as int == chunk_start(cs, i)
            && plan.chunks@[i].end_offset as int == chunk_end(total, cs, i)
            && plan.chunks@[i].chunk_size == plan.chunks@[i].end_offset
            - plan.chunks@[i].start_offset + 1
    &&& plan.chunks@[n - 1].end_offset as int == total - 1
    &&& e1.store == spec_register(
        e0.store,
        registered_file_rec(fid, name, total, checksum, now),
        Seq::new(n as nat, |i: int| planned_row(fid, total, cs, now, i)),
    )
    &&& e1.staging == e0.staging
    &&& e1.published == e0.published
}

/// Published files and file rows untouched (save for rows appended in a
/// non-completed status) keep every completed file verified.
pub proof fn lemma_completed_preserved(e0: EngineModel, e1: EngineModel)
    requires
        completed_published(e0),
        e1.published == e0.published,
        e1.store.files.len() >= e0.store.files.len(),
        forall|i: int|
            0 <= i < e0.store.files.len() ==> #[trigger] e1.store.files[i] == e0.store.files[i],
        forall|i: int|
            e0.store.files.len() <= i < e1.store.files.len() ==> (#[trigger] e1.store.files[i]).status
                != STATUS_COMPLETED,
    ensures
        completed_published(e1),
{
    assert forall|i: int|
        0 <= i < e1.store.files.len() && (#[trigger] e1.store.files[i]).status == STATUS_COMPLETED
            && filename_unique(e1.store, i) implies completed_file_ok(e1, e1.store.files[i]) by {
        assert(i < e0.store.files.len());
        let f = e0.store.files[i];
        assert(e1.store.files[i] == f);
        assert(filename_unique(e0.store, i)) by {
            assert(forall|j: int|
                0 <= j < e0.store.files.len() && j != i ==> #[trigger] e0.store.files[j]
                    == e1.store.files[j]);
        }
        assert(completed_file_ok(e0, f));
        let pi = published_index(e0, f.file_path);
        assert(0 <= pi < e0.published.len() && e0.published[pi].path == f.file_path);
        assert(has_published(e1, f.file_path));
        assert(published_bytes(e1, f.file_path) == published_bytes(e0, f.file_path)) by {
            let pj = published_index(e1, f.file_path);
            assert(0 <= pj < e1.published.len() && e1.published[pj].path == f.file_path);
        }
    }
}

/// Published files untouched, names untouched, and no row newly COMPLETED
/// or changed while COMPLETED: every completed file stays verified.
pub proof fn lemma_completed_preserved_general(e0: EngineModel, e1: EngineModel)
    requires
        completed_published(e0),
        e1.published == e0.published,
        e1.store.files.len() == e0.store.files.len(),
        forall|i: int|
            0 <= i < e0.store.files.len() ==> (#[trigger] e1.store.files[i]).filename
                == e0.store.files[i].filename,
        forall|i: int|
            0 <= i < e0.store.files.len() && (#[trigger] e1.store.files[i]).status
                == STATUS_COMPLETED ==> e1.store.files[i] == e0.store.files[i],
    ensures
        completed_published(e1),
{
    assert forall|i: int|
        0 <= i < e1.store.files.len() && (#[trigger] e1.store.files[i]).status == STATUS_COMPLETED
            && filename_unique(e1.store, i) implies completed_file_ok(e1, e1.store.files[i]) by {
        let f = e0.store.files[i];
        assert(e1.store.files[i] == f);
        assert forall|j: int| 0 <= j < e0.store.files.len() && j != i implies (
        #[trigger] e0.store.files[j]).filename != e0.store.files[i].filename by {
            assert(e1.store.files[j].filename == e0.store.files[j].filename);
            assert(e1.store.files[j].filename != e1.store.files[i].filename);
        }
        assert(filename_unique(e0.store, i));
        assert(completed_file_ok(e0, f));
    }
}

impl UploadEngine {
    /// An empty engine: nothing registered, nothing staged, nothing
    /// published, no configuration.
    pub fn new() -> (r: UploadEngine)
        ensures
            engine_wf(r@),
            r@.store.files.len() == 0,
            r@.store.config.len() == 0,
            r@.staging.len() == 0,
            r@.published.len() == 0,
    {
        UploadEngine { store: Store::new(), staging: Vec::new(), published: Vec::new() }
    }

    /// Sets or replaces a configuration entry.
    pub fn set_config(&mut self, key: &str, value: &str)
        requires
            engine_wf(old(self)@),
        ensures
            engine_wf(final(self)@),
            final(self)@.store.files == old(self)@.store.files,
            final(self)@.store.chunks == old(self)@.store.chunks,
            final(self)@.staging == old(self)@.staging,
            final(self)@.published == old(self)@.published,
            config_value_or(final(self)@.store, key@, ""@) == value@,
            forall|k: Seq<char>, d: Seq<char>|
                k != key@ ==> #[trigger] config_value_or(final(self)@.store, k, d)
                    == config_value_or(old(self)@.store, k, d),
            statuses_advance(old(self)@.store, final(self)@.store),
    {
        let ghost e0 = self@;
        self.store.set_config(key, value);
        proof {
            assert(self@.staging == e0.staging);
            assert(self@.published == e0.published);
            assert(self@.store.files == e0.store.files);
            lemma_completed_preserved(e0, self@);
        }
    }

    /// Whether the `system_initialized` gate is set to `"success"`.
    pub fn is_initialized(&self) -> (r: bool)
        requires
            store_wf(self@.store),
        ensures
            r == initialized(self@.store),
    {
        let v = self.store.get_config("system_initialized", "");
        str_eq(v.as_str(), "success")
    }

    /// The chunk length the planner uses, from configuration.
    pub fn chunk_size_config(&self) -> (r: u64)
        requires
            store_wf(self@.store),
        ensures
            r as int == effective_chunk_size(self@.store),
            r >= 1,
    {
        let s = self.store.get_config("chunk_size", "");
        match parse_u64(s.as_str()) {
            Some(v) => if v >= 1 {
                v
            } else {
                DEFAULT_CHUNK_SIZE
            },
            None => DEFAULT_CHUNK_SIZE,
        }
    }

    /// Registers a file under a caller-chosen identifier: sanitizes the
    /// name, plans the chunk layout under the configured chunk size, and
    /// inserts the metadata row and all chunk rows atomically.
    #[verifier::rlimit(100)]
    pub fn register_file_with_id(
        &mut self,
        file_id: String,
        filename_raw: &str,
        total_size: u64,
        expected_digest: &str,
        now: u64,
    ) -> (r: Result<UploadPlan, UploadError>)
        requires
            engine_wf(old(self)@),
            total_size <= MAX_STORE_INT,
            now <= MAX_STORE_INT,
        ensures
            engine_wf(final(self)@),
            statuses_advance(old(self)@.store, final(self)@.store),
            match r {
                Err(UploadError::NotInitialized) => !initialized(old(self)@.store) && *final(self)
                    == *old(self),
                Err(UploadError::InvalidArgument) => initialized(old(self)@.store) && (total_size
                    == 0 || sanitized_of(filename_raw@).len() == 0) && *final(self) == *old(self),
                Err(UploadError::AlreadyExists) => initialized(old(self)@.store) && total_size >= 1
                    && sanitized_of(filename_raw@).len() >= 1 && has_file(
                    old(self)@.store,
                    file_id@,
                ) && *final(self) == *old(self),
                Ok(plan) => initialized(old(self)@.store) && total_size >= 1 && sanitized_of(
                    filename_raw@,
                ).len() >= 1 && plan.file_id@ == file_id@ && register_ok(
                    old(self)@,
                    final(self)@,
                    plan,
                    filename_raw@,
                    total_size as int,
                    expected_digest@,
                    now as int,
                ),
                _ => false,
            },
    {
        if !self.is_initialized() {
            return Err(UploadError::NotInitialized);
        }
        let sanitized = sanitize_name(filename_raw);
        if total_size == 0 || sanitized.as_str().is_empty() {
            return Err(UploadError::InvalidArgument);
        }
        let chunk_size = self.chunk_size_config();
        let plan = plan_chunks(total_size, chunk_size);
        let ghost cs = chunk_size as int;
        let ghost total = total_size as int;
        let n = plan.len();
        let mut rows: Vec<ChunkRow> = Vec::new();
        let mut i: usize = 0;
        while i < n
            invariant
                n == plan@.len(),
                0 <= i <= n,
                now <= MAX_STORE_INT,
                cs == chunk_size as int,
                total == total_size as int,
                rows@.len() == i,
                forall|k: int|
                    0 <= k < plan@.len() ==> (#[trigger] plan@[k]).start_offset as int
                        == chunk_start(cs, k) && plan@[k].end_offset as int == chunk_end(
                        total,
                        cs,
                        k,
                    ) && plan@[k].chunk_size == plan@[k].end_offset - plan@[k].start_offset + 1
                        && plan@[k].start_offset <= plan@[k].end_offset < total_size,
                forall|k: int|
                    0 <= k < i ==> #[trigger] rows@[k]@ == planned_row(file_id@, total, cs, now as int, k),
            decreases n - i,
        {
            let c = &plan[i];
            rows.push(
                ChunkRow {
                    file_id: file_id.clone(),
                    start_offset: c.start_offset,
                    end_offset: c.end_offset,
                    chunk_size: c.chunk_size,
                    uploaded_size: 0,
                    chunk_digest: String::new(),
                    last_updated: now,
                },
            );
            i = i + 1;
        }
        let meta = UploadedFile {
            file_id: file_id.clone(),
            filename: sanitized.clone(),
            total_size: total_size as i64,
            checksum: String::from_str(expected_digest),
            status: STATUS_REGISTERED,
            file_path: String::new(),
            last_updated: now as i64,
        };
        proof {
            let rv = rows_view(rows@);
            assert(rv =~= Seq::new(
                n as nat,
                |k: int| planned_row(file_id@, total, cs, now as int, k),
            ));
            assert(file_wf(meta@));
            assert(meta@.total_size == total);
            assert(rv.len() >= 1);
            assert(rv[0].start_offset == 0) by {
                assert(plan@[0].start_offset as int == chunk_start(cs, 0));
            }
            assert(rv[rv.len() - 1].end_offset == total - 1) by {
                assert(plan@[n - 1].end_offset as int == chunk_end(total, cs, n - 1));
            }
            assert forall|j: int| 0 <= j < rv.len() - 1 implies rv[j + 1].start_offset
                == #[trigger] rv[j].end_offset + 1 by {
                assert(plan@[j + 1].start_offset as int == plan@[j].end_offset as int + 1);
                assert(plan@[j].end_offset as int == chunk_end(total, cs, j));
                assert(plan@[j + 1].start_offset as int == chunk_start(cs, j + 1));
            }
            assert forall|j: int| 0 <= j < rv.len() implies chunk_row_wf(meta@, #[trigger] rv[j]) by {
                assert(plan@[j].start_offset as int == chunk_start(cs, j));
                assert(plan@[j].end_offset as int == chunk_end(total, cs, j));
                assert(plan@[j].start_offset <= plan@[j].end_offset < total_size);
            }
            assert(chunks_wf(meta@, rv));
        }
        let ghost e0 = self@;
        let ok = self.store.register(meta, rows);
        if !ok {
            return Err(UploadError::AlreadyExists);
        }
        proof {
            assert(self@.staging == e0.staging);
            assert(self@.published == e0.published);
            lemma_completed_preserved(e0, self@);
        }
        Ok(
            UploadPlan {
                file_id,
                filename: sanitized,
                total_size,
                chunk_size,
                total_chunks: n as u64,
                chunks: plan,
            },
        )
    }

    /// Registers a file under a fresh random identifier.
    pub fn register_file(
        &mut self,
        filename_raw: &str,
        total_size: u64,
        expected_digest: &str,
        now: u64,
    ) -> (r: Result<UploadPlan, UploadError>)
        requires
            engine_wf(old(self)@),
            total_size <= MAX_STORE_INT,
            now <= MAX_STORE_INT,
        ensures
            engine_wf(final(self)@),
            statuses_advance(old(self)@.store, final(self)@.store),
            match r {
                Err(UploadError::NotInitialized) => !initialized(old(self)@.store) && *final(self)
                    == *old(self),
                Err(UploadError::InvalidArgument) => initialized(old(self)@.store) && (total_size
                    == 0 || sanitized_of(filename_raw@).len() == 0) && *final(self) == *old(self),
                Err(UploadError::AlreadyExists) => initialized(old(self)@.store) && total_size >= 1
                    && sanitized_of(filename_raw@).len() >= 1 && old(self)@.store.files.len() >= 1
                    && *final(self) == *old(self),
                Ok(plan) => initialized(old(self)@.store) && total_size >= 1 && sanitized_of(
                    filename_raw@,
                ).len() >= 1 && plan.file_id@.len() == 36 && register_ok(
                    old(self)@,
                    final(self)@,
                    plan,
                    filename_raw@,
                    total_size as int,
                    expected_digest@,
                    now as int,
                ),
                _ => false,
            },
    {
        let id = fresh_file_id();
        self.register_file_with_id(id, filename_raw, total_size, expected_digest, now)
    }
}

} // verus!
