use vstd::prelude::*;

use crate::strutil::str_eq;
use crate::MAX_STORE_INT;

verus! {

/// Status of a file whose chunks are still being received.
pub const STATUS_REGISTERED: i32 = 0;

/// Status of a file whose chunks are complete and being assembled.
pub const STATUS_PROCESSING: i32 = 1;

/// Status of a file that is assembled, verified and published.
pub const STATUS_COMPLETED: i32 = 2;

/// One row of file metadata: a registered upload.
pub struct UploadedFile {
    pub file_id: String,
    pub filename: String,
    pub total_size: i64,
    pub checksum: String,
    pub status: i32,
    pub file_path: String,
    pub last_updated: i64,
}

/// One row of per-chunk progress.
pub struct ChunkRow {
    pub file_id: String,
    pub start_offset: u64,
    pub end_offset: u64,
    pub chunk_size: u64,
    pub uploaded_size: u64,
    pub chunk_digest: String,
    pub last_updated: u64,
}

/// One configuration entry.
pub struct ConfigEntry {
    pub key: String,
    pub value: String,
}

/// Mathematical image of a file row.
#[verifier::ext_equal]
pub struct FileRec {
    pub file_id: Seq<char>,
    pub filename: Seq<char>,
    pub total_size: int,
    pub checksum: Seq<char>,
    pub status: int,
    pub file_path: Seq<char>,
    pub last_updated: int,
}

/// Mathematical image of a chunk row.
#[verifier::ext_equal]
pub struct ChunkRec {
    pub file_id: Seq<char>,
    pub start_offset: int,
    pub end_offset: int,
    pub chunk_size: int,
    pub uploaded_size: int,
    pub chunk_digest: Seq<char>,
    pub last_updated: int,
}

/// Mathematical image of the whole store.
#[verifier::ext_equal]
pub struct StoreModel {
    pub files: Seq<FileRec>,
    pub chunks: Seq<Seq<ChunkRec>>,
    pub config: Seq<(Seq<char>, Seq<char>)>,
}

impl View for UploadedFile {
    type V = FileRec;

    open spec fn view(&self) -> FileRec {
        FileRec {
            file_id: self.file_id@,
            filename: self.filename@,
            total_size: self.total_size as int,
            checksum: self.checksum@,
            status: self.status as int,
            file_path: self.file_path@,
            last_updated: self.last_updated as int,
        }
    }
}

impl View for ChunkRow {
    type V = ChunkRec;

    open spec fn view(&self) -> ChunkRec {
        ChunkRec {
            file_id: self.file_id@,
            start_offset: self.start_offset as int,
            end_offset: self.end_offset as int,
            chunk_size: self.chunk_size as int,
            uploaded_size: self.uploaded_size as int,
            chunk_digest: self.chunk_digest@,
            last_updated: self.last_updated as int,
        }
    }
}

/// The views of a vector of chunk rows.
pub open spec fn rows_view(v: Seq<ChunkRow>) -> Seq<ChunkRec> {
    v.map_values(|c: ChunkRow| c@)
}

/// Durable persistence for file metadata, per-chunk progress and
/// configuration. Every operation either fully applies or changes nothing.
pub struct Store {
    pub files: Vec<UploadedFile>,
    pub chunks: Vec<Vec<ChunkRow>>,
    pub config: Vec<ConfigEntry>,
}

impl View for Store {
    type V = StoreModel;

    open spec fn view(&self) -> StoreModel {
        StoreModel {
            files: self.files@.map_values(|f: UploadedFile| f@),
            chunks: self.chunks@.map_values(|v: Vec<ChunkRow>| rows_view(v@)),
            config: self.config@.map_values(|e: ConfigEntry| (e.key@, e.value@)),
        }
    }
}

/// A chunk row that belongs to its file: its range lies inside the file,
/// its size names the range length, and its progress stays inside the range.
pub open spec fn chunk_row_wf(f: FileRec, c: ChunkRec) -> bool {
    &&& c.file_id == f.file_id
    &&& 0 <= c.start_offset <= c.end_offset < f.total_size
    &&& c.chunk_size == c.end_offset - c.start_offset + 1
    &&& 0 <= c.uploaded_size <= c.chunk_size
    &&& 0 <= c.last_updated <= MAX_STORE_INT
}

/// The chunk rows of a file partition `[0, total_size)`: contiguous,
/// ascending, starting at zero and ending at the last byte.
pub open spec fn chunks_wf(f: FileRec, rows: Seq<ChunkRec>) -> bool {
    &&& rows.len() >= 1
    &&& rows[0].start_offset == 0
    &&& rows[rows.len() - 1].end_offset == f.total_size - 1
    &&& forall|j: int|
        0 <= j < rows.len() - 1 ==> rows[j + 1].start_offset == #[trigger] rows[j].end_offset + 1
    &&& forall|j: int| 0 <= j < rows.len() ==> chunk_row_wf(f, #[trigger] rows[j])
}

/// A well-formed file row: positive size within the store's integer range,
/// a known status, and no published path before completion.
pub open spec fn file_wf(f: FileRec) -> bool {
    &&& 1 <= f.total_size <= MAX_STORE_INT
    &&& 0 <= f.status <= 2
    &&& 0 <= f.last_updated <= MAX_STORE_INT
    &&& f.status != STATUS_COMPLETED ==> f.file_path.len() == 0
}

/// Store invariant: unique file identifiers, one row group per file, every
/// group a partition of its file, unique configuration keys.
pub open spec fn store_wf(m: StoreModel) -> bool {
    &&& m.files.len() == m.chunks.len()
    &&& forall|i: int, j: int|
        0 <= i < j < m.files.len() ==> #[trigger] m.files[i].file_id != #[trigger] m.files[j].file_id
    &&& forall|i: int|
        0 <= i < m.files.len() ==> file_wf(#[trigger] m.files[i]) && chunks_wf(m.files[i], m.chunks[i])
    &&& forall|i: int, j: int|
        0 <= i < j < m.config.len() ==> (#[trigger] m.config[i]).0 != (#[trigger] m.config[j]).0
}

/// Whether a file row with this identifier stands in `files`.
pub open spec fn files_has(files: Seq<FileRec>, fid: Seq<char>) -> bool {
    exists|i: int| 0 <= i < files.len() && #[trigger] files[i].file_id == fid
}

/// Index in `files` of the row with this identifier.
pub open spec fn files_index(files: Seq<FileRec>, fid: Seq<char>) -> int {
    choose|i: int| 0 <= i < files.len() && #[trigger] files[i].file_id == fid
}

/// Whether a chunk row with this start offset stands in `rows`.
pub open spec fn rows_has(rows: Seq<ChunkRec>, off: int) -> bool {
    exists|j: int| 0 <= j < rows.len() && #[trigger] rows[j].start_offset == off
}

/// Index in `rows` of the chunk row with this start offset.
pub open spec fn rows_index(rows: Seq<ChunkRec>, off: int) -> int {
    choose|j: int| 0 <= j < rows.len() && #[trigger] rows[j].start_offset == off
}

/// Whether the store holds a file with this identifier.
pub open spec fn has_file(m: StoreModel, fid: Seq<char>) -> bool {
    files_has(m.files, fid)
}

/// The index of the file with this identifier (unique under `store_wf`).
pub open spec fn file_index(m: StoreModel, fid: Seq<char>) -> int {
    files_index(m.files, fid)
}

/// Whether the file with this identifier has a chunk at this start offset.
pub open spec fn has_chunk(m: StoreModel, fid: Seq<char>, off: int) -> bool {
    has_file(m, fid) && rows_has(m.chunks[file_index(m, fid)], off)
}

/// The index, within its file's group, of the chunk at this start offset.
pub open spec fn chunk_index(m: StoreModel, fid: Seq<char>, off: int) -> int {
    rows_index(m.chunks[file_index(m, fid)], off)
}

/// Whether `cfg` holds a configuration entry with this key.
pub open spec fn config_has(cfg: Seq<(Seq<char>, Seq<char>)>, key: Seq<char>) -> bool {
    exists|i: int| 0 <= i < cfg.len() && (#[trigger] cfg[i]).0 == key
}

/// Index in `cfg` of the entry with this key.
pub open spec fn config_idx(cfg: Seq<(Seq<char>, Seq<char>)>, key: Seq<char>) -> int {
    choose|i: int| 0 <= i < cfg.len() && (#[trigger] cfg[i]).0 == key
}

/// Whether the store holds a configuration entry with this key.
pub open spec fn has_config(m: StoreModel, key: Seq<char>) -> bool {
    config_has(m.config, key)
}

/// The index of the configuration entry with this key.
pub open spec fn config_index(m: StoreModel, key: Seq<char>) -> int {
    config_idx(m.config, key)
}

/// The configured value for a key, or the given default.
pub open spec fn config_value_or(m: StoreModel, key: Seq<char>, default: Seq<char>) -> Seq<char> {
    if has_config(m, key) {
        m.config[config_index(m, key)].1
    } else {
        default
    }
}

/// Whether the `system_initialized` gate is set to `"success"`.
pub open spec fn initialized(m: StoreModel) -> bool {
    config_value_or(m, "system_initialized"@, ""@) == "success"@
}

/// Sum of `uploaded_size` over a group of chunk rows.
pub open spec fn sum_uploaded_rows(rows: Seq<ChunkRec>) -> int
    decreases rows.len(),
{
    if rows.len() == 0 {
        0
    } else {
        sum_uploaded_rows(rows.drop_last()) + rows.last().uploaded_size
    }
}

/// Sum of `chunk_size` over a group of chunk rows.
pub open spec fn sum_chunk_sizes(rows: Seq<ChunkRec>) -> int
    decreases rows.len(),
{
    if rows.len() == 0 {
        0
    } else {
        sum_chunk_sizes(rows.drop_last()) + rows.last().chunk_size
    }
}

/// Over a contiguous ascending group, the chunk sizes sum to the length of
/// the covered range.
pub proof fn lemma_sizes_cover(rows: Seq<ChunkRec>)
    requires
        rows.len() >= 1,
        forall|j: int|
            0 <= j < rows.len() - 1 ==> rows[j + 1].start_offset == #[trigger] rows[j].end_offset
                + 1,
        forall|j: int|
            0 <= j < rows.len() ==> (#[trigger] rows[j]).chunk_size == rows[j].end_offset
                - rows[j].start_offset + 1,
    ensures
        sum_chunk_sizes(rows) == rows.last().end_offset - rows[0].start_offset + 1,
    decreases rows.len(),
{
    assert(rows.last() == rows[rows.len() - 1]);
    assert(rows.last().chunk_size == rows.last().end_offset - rows.last().start_offset + 1);
    if rows.len() == 1 {
        assert(sum_chunk_sizes(rows) == sum_chunk_sizes(rows.drop_last()) + rows.last().chunk_size);
        assert(sum_chunk_sizes(rows.drop_last()) == 0);
    } else {
        let prefix = rows.drop_last();
        assert(forall|j: int| 0 <= j < prefix.len() ==> #[trigger] prefix[j] == rows[j]);
        lemma_sizes_cover(prefix);
        assert(prefix.last() == rows[rows.len() - 2]);
        assert(prefix[0] == rows[0]);
        assert(rows[rows.len() - 2].end_offset + 1 == rows.last().start_offset);
        assert(sum_chunk_sizes(rows) == sum_chunk_sizes(prefix) + rows.last().chunk_size);
    }
}

/// The uploaded sum of a group never exceeds the sum of its chunk sizes.
pub proof fn lemma_uploaded_le_sizes(rows: Seq<ChunkRec>)
    requires
        forall|j: int|
            0 <= j < rows.len() ==> (#[trigger] rows[j]).uploaded_size <= rows[j].chunk_size,
    ensures
        sum_uploaded_rows(rows) <= sum_chunk_sizes(rows),
    decreases rows.len(),
{
    if rows.len() > 0 {
        let prefix = rows.drop_last();
        assert(forall|j: int|
            0 <= j < prefix.len() ==> #[trigger] prefix[j] == rows[j]);
        lemma_uploaded_le_sizes(prefix);
    }
}

/// For a well-formed file the uploaded sum never exceeds the total size.
pub proof fn lemma_uploaded_le_total(f: FileRec, rows: Seq<ChunkRec>)
    requires
        chunks_wf(f, rows),
    ensures
        sum_uploaded_rows(rows) <= f.total_size,
{
    lemma_sizes_cover(rows);
    lemma_uploaded_le_sizes(rows);
}

/// A prefix sum of uploaded sizes never exceeds the whole sum.
pub proof fn lemma_sum_uploaded_prefix(rows: Seq<ChunkRec>, j: int)
    requires
        0 <= j <= rows.len(),
        forall|k: int| 0 <= k < rows.len() ==> (#[trigger] rows[k]).uploaded_size >= 0,
    ensures
        sum_uploaded_rows(rows.take(j)) <= sum_uploaded_rows(rows),
    decreases rows.len() - j,
{
    if j == rows.len() {
        assert(rows.take(j) =~= rows);
    } else {
        assert(rows.take(j + 1).drop_last() =~= rows.take(j));
        assert(rows.take(j + 1).last() == rows[j]);
        lemma_sum_uploaded_prefix(rows, j + 1);
    }
}

/// The store after registering one file together with its chunk rows.
pub open spec fn spec_register(m: StoreModel, f: FileRec, rows: Seq<ChunkRec>) -> StoreModel {
    StoreModel { files: m.files.push(f), chunks: m.chunks.push(rows), config: m.config }
}

/// The store after overwriting one chunk row's progress columns.
pub open spec fn spec_update_chunk(
    m: StoreModel,
    fid: Seq<char>,
    off: int,
    uploaded: int,
    digest: Seq<char>,
    now: int,
) -> StoreModel {
    let fi = file_index(m, fid);
    let cj = chunk_index(m, fid, off);
    let row = m.chunks[fi][cj];
    let newrow = ChunkRec {
        uploaded_size: uploaded,
        chunk_digest: digest,
        last_updated: now,
        ..row
    };
    StoreModel { chunks: m.chunks.update(fi, m.chunks[fi].update(cj, newrow)), ..m }
}

/// The store after a successful status transition.
pub open spec fn spec_transition(
    m: StoreModel,
    fid: Seq<char>,
    to: int,
    path: Option<Seq<char>>,
    now: int,
) -> StoreModel {
    let fi = file_index(m, fid);
    let f = m.files[fi];
    let f2 = FileRec {
        status: to,
        file_path: match path {
            Some(p) => p,
            None => f.file_path,
        },
        last_updated: now,
        ..f
    };
    StoreModel { files: m.files.update(fi, f2), ..m }
}

/// No file row's status ever moves backwards, and no row is dropped.
pub open spec fn statuses_advance(m0: StoreModel, m1: StoreModel) -> bool {
    &&& m1.files.len() >= m0.files.len()
    &&& forall|i: int|
        0 <= i < m0.files.len() ==> (#[trigger] m1.files[i]).file_id == m0.files[i].file_id
            && m1.files[i].status >= m0.files[i].status
}

/// Statuses advance along a chain of store states.
pub proof fn lemma_statuses_advance_trans(a: StoreModel, b: StoreModel, c: StoreModel)
    requires
        statuses_advance(a, b),
        statuses_advance(b, c),
    ensures
        statuses_advance(a, c),
{
    assert forall|i: int| 0 <= i < a.files.len() implies (#[trigger] c.files[i]).file_id
        == a.files[i].file_id && c.files[i].status >= a.files[i].status by {
        assert(b.files[i].file_id == a.files[i].file_id && b.files[i].status >= a.files[i].status);
        assert(c.files[i].file_id == b.files[i].file_id && c.files[i].status >= b.files[i].status);
    }
}

/// Start offsets strictly increase along a contiguous ascending group.
pub proof fn lemma_starts_increasing(rows: Seq<ChunkRec>, a: int, b: int)
    requires
        forall|j: int|
            0 <= j < rows.len() - 1 ==> rows[j + 1].start_offset == #[trigger] rows[j].end_offset
                + 1,
        forall|j: int|
            0 <= j < rows.len() ==> (#[trigger] rows[j]).start_offset <= rows[j].end_offset,
        0 <= a < b < rows.len(),
    ensures
        rows[a].start_offset < rows[b].start_offset,
    decreases b - a,
{
    if b == a + 1 {
    } else {
        lemma_starts_increasing(rows, a, b - 1);
    }
}

/// Index of the chunk row with this start offset within one file's group.
pub(crate) fn find_chunk_idx(group: &Vec<ChunkRow>, start_offset: u64) -> (r: Option<usize>)
    ensures
        match r {
            Some(c) => 0 <= c < group@.len() && rows_view(group@)[c as int].start_offset
                == start_offset as int,
            None => forall|k: int|
                0 <= k < group@.len() ==> (#[trigger] rows_view(group@)[k]).start_offset
                    != start_offset as int,
        },
{
    let n = group.len();
    let mut j: usize = 0;
    while j < n
        invariant
            n == group@.len(),
            0 <= j <= n,
            forall|k: int|
                0 <= k < j ==> (#[trigger] rows_view(group@)[k]).start_offset
                    != start_offset as int,
        decreases n - j,
    {
        if group[j].start_offset == start_offset {
            proof {
                assert(rows_view(group@)[j as int] == group@[j as int]@);
            }
            return Some(j);
        }
        proof {
            assert(rows_view(group@)[j as int] == group@[j as int]@);
        }
        j = j + 1;
    }
    None
}

impl Store {
    /// An empty store.
    pub fn new() -> (r: Store)
        ensures
            store_wf(r@),
            r@.files.len() == 0,
            r@.chunks.len() == 0,
            r@.config.len() == 0,
    {
        Store { files: Vec::new(), chunks: Vec::new(), config: Vec::new() }
    }

    /// Index of the file row holding this identifier, if any.
    fn find_file_idx(&self, file_id: &str) -> (r: Option<usize>)
        requires
            store_wf(self@),
        ensures
            match r {
                Some(i) => has_file(self@, file_id@) && file_index(self@, file_id@) == i as int
                    && 0 <= i < self@.files.len() && self@.files[i as int].file_id == file_id@,
                None => !has_file(self@, file_id@),
            },
    {
        let n = self.files.len();
        let mut i: usize = 0;
        while i < n
            invariant
                store_wf(self@),
                n == self@.files.len(),
                0 <= i <= n,
                forall|j: int| 0 <= j < i ==> #[trigger] self@.files[j].file_id != file_id@,
            decreases n - i,
        {
            if str_eq(self.files[i].file_id.as_str(), file_id) {
                proof {
                    assert(self@.files[i as int] == self.files@[i as int]@);
                    assert(self@.files[i as int].file_id == file_id@);
                    assert(has_file(self@, file_id@));
                    let k = file_index(self@, file_id@);
                    assert(0 <= k < self@.files.len() && self@.files[k].file_id == file_id@);
                    if k < i as int {
                        assert(self@.files[k].file_id != self@.files[i as int].file_id);
                    } else if k > i as int {
                        assert(self@.files[i as int].file_id != self@.files[k].file_id);
                    }
                }
                return Some(i);
            }
            i = i + 1;
        }
        None
    }

    /// The configured value for a key, or the given default.
    pub fn get_config(&self, key: &str, default: &str) -> (r: String)
        requires
            store_wf(self@),
        ensures
            r@ == config_value_or(self@, key@, default@),
    {
        let n = self.config.len();
        let mut i: usize = 0;
        while i < n
            invariant
                store_wf(self@),
                n == self@.config.len(),
                0 <= i <= n,
                forall|j: int| 0 <= j < i ==> (#[trigger] self@.config[j]).0 != key@,
            decreases n - i,
        {
            if str_eq(self.config[i].key.as_str(), key) {
                proof {
                    assert(self@.config[i as int] == (
                        self.config@[i as int].key@,
                        self.config@[i as int].value@,
                    ));
                    assert(self@.config[i as int].0 == key@);
                    assert(has_config(self@, key@));
                    let k = config_index(self@, key@);
                    assert(0 <= k < self@.config.len() && self@.config[k].0 == key@);
                    if k < i as int {
                        assert(self@.config[k].0 != self@.config[i as int].0);
                    } else if k > i as int {
                        assert(self@.config[i as int].0 != self@.config[k].0);
                    }
                }
                return self.config[i].value.clone();
            }
            i = i + 1;
        }
        String::from_str(default)
    }

    /// Sets or replaces a configuration entry.
    pub fn set_config(&mut self, key: &str, value: &str)
        requires
            store_wf(old(self)@),
        ensures
            store_wf(final(self)@),
            final(self)@.files == old(self)@.files,
            final(self)@.chunks == old(self)@.chunks,
            config_value_or(final(self)@, key@, ""@) == value@,
            has_config(final(self)@, key@),
            forall|k: Seq<char>, d: Seq<char>|
                k != key@ ==> #[trigger] config_value_or(final(self)@, k, d) == config_value_or(
                    old(self)@,
                    k,
                    d,
                ),
    {
        let n = self.config.len();
        let mut i: usize = 0;
        while i < n
            invariant
                store_wf(self@),
                self == old(self),
                n == self@.config.len(),
                0 <= i <= n,
                forall|j: int| 0 <= j < i ==> (#[trigger] self@.config[j]).0 != key@,
            decreases n - i,
        {
            if str_eq(self.config[i].key.as_str(), key) {
                let entry = ConfigEntry { key: String::from_str(key), value: String::from_str(value) };
                let ghost m0 = self@;
                self.config.set(i, entry);
                proof {
                    assert(self@.config =~= m0.config.update(i as int, (key@, value@)));
                    assert(self@.files == m0.files);
                    assert(self@.chunks == m0.chunks);
                    lemma_config_lookup(self@, m0, key@, value@, i as int);
                }
                return ;
            }
            i = i + 1;
        }
        let entry = ConfigEntry { key: String::from_str(key), value: String::from_str(value) };
        let ghost m0 = self@;
        self.config.push(entry);
        proof {
            assert(self@.config =~= m0.config.push((key@, value@)));
            assert(self@.files == m0.files);
            assert(self@.chunks == m0.chunks);
            lemma_config_lookup(self@, m0, key@, value@, m0.config.len() as int);
        }
    }

    /// Inserts a file row together with all its chunk rows; fails (returns
    /// false, changing nothing) when the identifier is already taken.
    pub fn register(&mut self, meta: UploadedFile, rows: Vec<ChunkRow>) -> (r: bool)
        requires
            store_wf(old(self)@),
            file_wf(meta@),
            meta@.status == STATUS_REGISTERED,
            chunks_wf(meta@, rows_view(rows@)),
        ensures
            store_wf(final(self)@),
            r == !has_file(old(self)@, meta@.file_id),
            r ==> final(self)@ == spec_register(old(self)@, meta@, rows_view(rows@)),
            !r ==> *final(self) == *old(self),
            statuses_advance(old(self)@, final(self)@),
    {
        let found = self.find_file_idx(meta.file_id.as_str());
        if found.is_some() {
            return false;
        }
        let ghost m0 = self@;
        self.files.push(meta);
        self.chunks.push(rows);
        proof {
            assert(self@.files =~= m0.files.push(meta@));
            assert(self@.chunks =~= m0.chunks.push(rows_view(rows@)));
            assert(self@.config == m0.config);
            assert(self@ =~= spec_register(m0, meta@, rows_view(rows@)));
            assert forall|i: int, j: int| 0 <= i < j < self@.files.len() implies (
            #[trigger] self@.files[i]).file_id != (#[trigger] self@.files[j]).file_id by {
                if j == self@.files.len() - 1 {
                    assert(self@.files[i] == m0.files[i]);
                    assert(!has_file(m0, meta@.file_id));
                }
            }
        }
        true
    }

    /// A copy of the file row with this identifier.
    pub fn get_file(&self, file_id: &str) -> (r: Option<UploadedFile>)
        requires
            store_wf(self@),
        ensures
            match r {
                Some(f) => has_file(self@, file_id@) && f@ == self@.files[file_index(
                    self@,
                    file_id@,
                )],
                None => !has_file(self@, file_id@),
            },
    {
        match self.find_file_idx(file_id) {
            Some(i) => {
                let row = &self.files[i];
                Some(
                    UploadedFile {
                        file_id: row.file_id.clone(),
                        filename: row.filename.clone(),
                        total_size: row.total_size,
                        checksum: row.checksum.clone(),
                        status: row.status,
                        file_path: row.file_path.clone(),
                        last_updated: row.last_updated,
                    },
                )
            },
            None => None,
        }
    }

    /// Copies of the chunk rows of this file, in ascending offset order.
    pub fn get_chunks(&self, file_id: &str) -> (r: Option<Vec<ChunkRow>>)
        requires
            store_wf(self@),
        ensures
            match r {
                Some(v) => has_file(self@, file_id@) && rows_view(v@) == self@.chunks[file_index(
                    self@,
                    file_id@,
                )],
                None => !has_file(self@, file_id@),
            },
    {
        let fi = match self.find_file_idx(file_id) {
            Some(i) => i,
            None => {
                return None;
            },
        };
        let group = &self.chunks[fi];
        let n = group.len();
        let mut out: Vec<ChunkRow> = Vec::new();
        let mut j: usize = 0;
        while j < n
            invariant
                n == group@.len(),
                0 <= j <= n,
                out@.len() == j,
                forall|k: int| 0 <= k < j ==> #[trigger] out@[k]@ == group@[k]@,
            decreases n - j,
        {
            let row = &group[j];
            out.push(
                ChunkRow {
                    file_id: row.file_id.clone(),
                    start_offset: row.start_offset,
                    end_offset: row.end_offset,
                    chunk_size: row.chunk_size,
                    uploaded_size: row.uploaded_size,
                    chunk_digest: row.chunk_digest.clone(),
                    last_updated: row.last_updated,
                },
            );
            j = j + 1;
        }
        proof {
            assert(rows_view(out@) =~= rows_view(group@));
            assert(self@.chunks[fi as int] == rows_view(self.chunks@[fi as int]@));
        }
        Some(out)
    }

    /// The sum of uploaded sizes over all chunks of this file.
    pub fn sum_uploaded(&self, file_id: &str) -> (r: u64)
        requires
            store_wf(self@),
            has_file(self@, file_id@),
        ensures
            r == sum_uploaded_rows(self@.chunks[file_index(self@, file_id@)]),
    {
        let fi = match self.find_file_idx(file_id) {
            Some(i) => i,
            None => {
                proof {
                    assert(false);
                }
                return 0;
            },
        };
        let ghost rows = self@.chunks[fi as int];
        let ghost f = self@.files[fi as int];
        proof {
            lemma_uploaded_le_total(f, rows);
        }
        let group = &self.chunks[fi];
        let n = group.len();
        let mut acc: u64 = 0;
        let mut j: usize = 0;
        while j < n
            invariant
                n == rows.len(),
                0 <= j <= n,
                rows == rows_view(group@),
                chunks_wf(f, rows),
                sum_uploaded_rows(rows) <= f.total_size <= MAX_STORE_INT,
                acc == sum_uploaded_rows(rows.take(j as int)),
            decreases n - j,
        {
            proof {
                assert(rows.take(j as int + 1).drop_last() =~= rows.take(j as int));
                assert(rows.take(j as int + 1).last() == rows[j as int]);
                lemma_sum_uploaded_prefix(rows, j as int + 1);
            }
            acc = acc + group[j].uploaded_size;
            j = j + 1;
        }
        proof {
            assert(rows.take(n as int) =~= rows);
        }
        acc
    }

    /// Overwrites the progress columns of one chunk row.
    #[verifier::rlimit(50)]
    pub fn update_chunk(
        &mut self,
        file_id: &str,
        start_offset: u64,
        uploaded_size: u64,
        chunk_digest: String,
        now: u64,
    )
        requires
            store_wf(old(self)@),
            has_chunk(old(self)@, file_id@, start_offset as int),
            uploaded_size as int <= old(self)@.chunks[file_index(old(self)@, file_id@)][chunk_index(
                old(self)@,
                file_id@,
                start_offset as int,
            )].chunk_size,
            now <= MAX_STORE_INT,
        ensures
            store_wf(final(self)@),
            final(self)@ == spec_update_chunk(
                old(self)@,
                file_id@,
                start_offset as int,
                uploaded_size as int,
                chunk_digest@,
                now as int,
            ),
            statuses_advance(old(self)@, final(self)@),
    {
        let ghost m0 = self@;
        let fi = match self.find_file_idx(file_id) {
            Some(i) => i,
            None => {
                proof {
                    assert(false);
                }
                return ;
            },
        };
        let ghost rows = m0.chunks[fi as int];
        let ghost f = m0.files[fi as int];
        let ghost cjs = chunk_index(m0, file_id@, start_offset as int);
        let mut group = self.chunks.remove(fi);
        proof {
            assert(rows == rows_view(group@));
        }
        let found = find_chunk_idx(&group, start_offset);
        let cj = match found {
            Some(c) => c,
            None => {
                proof {
                    assert(0 <= cjs < rows.len() && rows[cjs].start_offset == start_offset as int);
                    assert(false);
                }
                return ;
            },
        };
        proof {
            assert(0 <= cjs < rows.len() && rows[cjs].start_offset == start_offset as int);
            if cjs != cj as int {
                if cjs < cj as int {
                    lemma_starts_increasing(rows, cjs, cj as int);
                } else {
                    lemma_starts_increasing(rows, cj as int, cjs);
                }
            }
        }
        let row = &group[cj];
        let newrow = ChunkRow {
            file_id: row.file_id.clone(),
            start_offset: row.start_offset,
            end_offset: row.end_offset,
            chunk_size: row.chunk_size,
            uploaded_size,
            chunk_digest,
            last_updated: now,
        };
        group.set(cj, newrow);
        self.chunks.insert(fi, group);
        proof {
            let m1 = spec_update_chunk(
                m0,
                file_id@,
                start_offset as int,
                uploaded_size as int,
                chunk_digest@,
                now as int,
            );
            assert(rows_view(group@) =~= rows.update(cj as int, group@[cj as int]@));
            assert(group@[cj as int]@ == m1.chunks[fi as int][cj as int]);
            assert(self@.chunks =~= m0.chunks.update(fi as int, rows_view(group@)));
            assert(self@.chunks =~~= m1.chunks);
            assert(self@.files == m1.files);
            assert(self@.config == m1.config);
            assert(self@ =~~= m1);
            assert forall|i: int|
                0 <= i < self@.files.len() implies file_wf(#[trigger] self@.files[i]) && chunks_wf(
                self@.files[i],
                self@.chunks[i],
            ) by {
                assert(file_wf(m0.files[i]) && chunks_wf(m0.files[i], m0.chunks[i]));
                if i == fi as int {
                    assert(forall|k: int|
                        0 <= k < self@.chunks[i].len() && k != cj as int
                            ==> #[trigger] self@.chunks[i][k] == m0.chunks[i][k]);
                }
            }
        }
    }

    /// Compare-and-set status transition: succeeds only when the row's
    /// current status equals `from`; then sets the new status, the optional
    /// final path, and the timestamp. Returns whether the row was updated.
    pub fn transition_status(
        &mut self,
        file_id: &str,
        from: i32,
        to: i32,
        file_path: Option<&String>,
        now: u64,
    ) -> (r: bool)
        requires
            store_wf(old(self)@),
            0 <= from < to <= 2,
            file_path is Some ==> to == STATUS_COMPLETED,
            now <= MAX_STORE_INT,
        ensures
            store_wf(final(self)@),
            r == (has_file(old(self)@, file_id@) && old(self)@.files[file_index(
                old(self)@,
                file_id@,
            )].status == from),
            r ==> final(self)@ == spec_transition(
                old(self)@,
                file_id@,
                to as int,
                match file_path {
                    Some(p) => Some(p@),
                    None => None,
                },
                now as int,
            ),
            !r ==> *final(self) == *old(self),
            statuses_advance(old(self)@, final(self)@),
    {
        let ghost m0 = self@;
        let fi = match self.find_file_idx(file_id) {
            Some(i) => i,
            None => {
                return false;
            },
        };
        let row = &self.files[fi];
        if row.status != from {
            return false;
        }
        let newrow = UploadedFile {
            file_id: row.file_id.clone(),
            filename: row.filename.clone(),
            total_size: row.total_size,
            checksum: row.checksum.clone(),
            status: to,
            file_path: match file_path {
                Some(p) => p.clone(),
                None => row.file_path.clone(),
            },
            last_updated: now as i64,
        };
        self.files.set(fi, newrow);
        proof {
            let m1 = spec_transition(
                m0,
                file_id@,
                to as int,
                match file_path {
                    Some(p) => Some(p@),
                    None => None,
                },
                now as int,
            );
            assert(self@.files =~= m0.files.update(fi as int, self@.files[fi as int]));
            assert(self@.files[fi as int] == m1.files[fi as int]);
            assert(self@.files =~= m1.files);
            assert(self@.chunks == m1.chunks);
            assert(self@.config == m1.config);
            assert(self@ =~~= m1);
            assert forall|i: int|
                0 <= i < self@.files.len() implies file_wf(#[trigger] self@.files[i]) && chunks_wf(
                self@.files[i],
                self@.chunks[i],
            ) by {
                assert(file_wf(m0.files[i]) && chunks_wf(m0.files[i], m0.chunks[i]));
                if i == fi as int {
                    assert(forall|k: int|
                        0 <= k < self@.chunks[i].len() ==> #[trigger] self@.chunks[i][k]
                            == m0.chunks[i][k]);
                }
            }
        }
        true
    }
}

/// After writing `(key, value)` at index `i` of the configuration, a lookup
/// of `key` yields `value` and lookups of other keys are unchanged.
proof fn lemma_config_lookup(m: StoreModel, m0: StoreModel, key: Seq<char>, value: Seq<char>, i: int)
    requires
        0 <= i <= m0.config.len(),
        m.config.len() == if i < m0.config.len() {
            m0.config.len() as int
        } else {
            m0.config.len() + 1int
        },
        forall|j: int| 0 <= j < m0.config.len() && j != i ==> #[trigger] m.config[j] == m0.config[j],
        m.config[i] == (key, value),
        forall|j: int| 0 <= j < i ==> (#[trigger] m0.config[j]).0 != key,
        i < m0.config.len() ==> (m0.config[i]).0 == key,
        forall|p: int, q: int|
            0 <= p < q < m0.config.len() ==> (#[trigger] m0.config[p]).0 != (#[trigger] m0.config[q]).0,
        m.files == m0.files,
        m.chunks == m0.chunks,
        store_wf(m0),
    ensures
        forall|p: int, q: int|
            0 <= p < q < m.config.len() ==> (#[trigger] m.config[p]).0 != (#[trigger] m.config[q]).0,
        store_wf(m),
        has_config(m, key),
        config_value_or(m, key, ""@) == value,
        forall|k: Seq<char>, d: Seq<char>|
            k != key ==> #[trigger] config_value_or(m, k, d) == config_value_or(m0, k, d),
{
    assert forall|j: int| 0 <= j < m0.config.len() && j != i implies (#[trigger] m0.config[j]).0
        != key by {
        if j > i {
            assert(m0.config[i].0 != m0.config[j].0);
        }
    }
    assert forall|p: int, q: int| 0 <= p < q < m.config.len() implies (#[trigger] m.config[p]).0
        != (#[trigger] m.config[q]).0 by {
        if p != i && q != i {
            assert(m.config[p] == m0.config[p]);
            assert(m.config[q] == m0.config[q]);
        }
    }
    assert(has_config(m, key)) by {
        assert(m.config[i].0 == key);
    }
    assert(config_value_or(m, key, ""@) == value) by {
        let j = config_index(m, key);
        assert(0 <= j < m.config.len() && m.config[j].0 == key);
        if j != i {
            assert(false);
        }
    }
    assert forall|k: Seq<char>, d: Seq<char>| k != key implies #[trigger] config_value_or(m, k, d)
        == config_value_or(m0, k, d) by {
        if has_config(m, k) {
            let j = config_index(m, k);
            assert(0 <= j < m.config.len() && m.config[j].0 == k);
            assert(j != i);
            assert(m0.config[j].0 == k);
            assert(has_config(m0, k));
            let j0 = config_index(m0, k);
            assert(0 <= j0 < m0.config.len() && m0.config[j0].0 == k);
            if j0 != j {
                if j0 != i {
                    assert(m.config[j0].0 == k);
                    assert(false);
                } else {
                    assert(false);
                }
            }
        } else {
            if has_config(m0, k) {
                let j0 = config_index(m0, k);
                assert(0 <= j0 < m0.config.len() && m0.config[j0].0 == k);
                assert(j0 != i);
                assert(m.config[j0].0 == k);
                assert(false);
            }
        }
    }
}

} // verus!
