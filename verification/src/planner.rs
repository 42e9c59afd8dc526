use vstd::prelude::*;

use crate::MAX_STORE_INT;

verus! {

/// Registration request: the raw file name and the total byte count.
pub struct FileMetadata {
    pub filename: String,
    pub total_size: u64,
}

/// One planned chunk: an inclusive byte range within the whole file.
pub struct ChunkInfo {
    pub start_offset: u64,
    pub end_offset: u64,
    pub chunk_size: u64,
}

/// First byte of chunk `i` under a fixed chunk length.
pub open spec fn chunk_start(cs: int, i: int) -> int {
    i * cs
}

/// Last byte of chunk `i`: one before the next chunk, capped by the file end.
pub open spec fn chunk_end(total: int, cs: int, i: int) -> int {
    if i * cs + cs <= total {
        i * cs + cs - 1
    } else {
        total - 1
    }
}

/// Chunk layout for a file: `ceil(total_size / chunk_size)` ranges that
/// partition `[0, total_size)`, contiguous and ascending from zero; only the
/// last range may be shorter than `chunk_size`.
pub fn plan_chunks(total_size: u64, chunk_size: u64) -> (r: Vec<ChunkInfo>)
    requires
        1 <= total_size <= MAX_STORE_INT,
        1 <= chunk_size,
    ensures
        r@.len() >= 1,
        forall|i: int|
            0 <= i < r@.len() ==> (#[trigger] r@[i]).start_offset == chunk_start(
                chunk_size as int,
                i,
            ) && r@[i].end_offset == chunk_end(total_size as int, chunk_size as int, i)
                && r@[i].chunk_size == r@[i].end_offset - r@[i].start_offset + 1
                && r@[i].start_offset <= r@[i].end_offset < total_size,
        r@[0].start_offset == 0,
        r@[r@.len() - 1].end_offset == total_size - 1,
        forall|j: int|
            0 <= j < r@.len() - 1 ==> r@[j + 1].start_offset == #[trigger] r@[j].end_offset + 1,
{
    let mut out: Vec<ChunkInfo> = Vec::new();
    let mut start: u64 = 0;
    let ghost cs = chunk_size as int;
    let ghost total = total_size as int;
    proof {
        assert(out@.len() == 0);
        assert((0int) * cs == 0) by (nonlinear_arith);
    }
    while start < total_size
        invariant
            1 <= total_size <= MAX_STORE_INT,
            1 <= chunk_size,
            cs == chunk_size as int,
            total == total_size as int,
            0 <= start <= total_size,
            start as int == (out@.len() as int) * cs || (start == total_size && (out@.len()
                as int) * cs >= total),
            forall|i: int|
                0 <= i < out@.len() ==> (#[trigger] out@[i]).start_offset == chunk_start(cs, i)
                    && out@[i].end_offset == chunk_end(total, cs, i) && out@[i].chunk_size
                    == out@[i].end_offset - out@[i].start_offset + 1 && out@[i].start_offset
                    <= out@[i].end_offset < total,
            forall|j: int|
                0 <= j < out@.len() - 1 ==> out@[j + 1].start_offset == #[trigger] out@[j].end_offset
                    + 1,
        decreases total_size - start,
    {
        let ghost k = out@.len() as int;
        proof {
            if start as int != k * cs {
                assert(start == total_size);
                assert(false);
            }
            assert((k + 1) * cs == k * cs + cs) by (nonlinear_arith);
            if k >= 1 {
                assert((k - 1) * cs + cs == k * cs) by (nonlinear_arith);
                assert(chunk_end(total, cs, k - 1) == k * cs - 1);
            }
        }
        let remaining = total_size - start;
        let size = if chunk_size <= remaining {
            chunk_size
        } else {
            remaining
        };
        let end = start + size - 1;
        out.push(ChunkInfo { start_offset: start, end_offset: end, chunk_size: size });
        proof {
            assert(out@[k].end_offset == chunk_end(total, cs, k));
            assert(forall|j: int| 0 <= j < k ==> out@[j] == out@.drop_last()[j]);
            if k >= 1 {
                assert(out@[k].start_offset == out@[k - 1].end_offset + 1);
            }
        }
        start = start + size;
    }
    proof {
        let k = out@.len() as int;
        assert(start == total_size);
        assert(k >= 1);
        assert(k * cs >= total);
        assert(out@[k - 1].end_offset == chunk_end(total, cs, k - 1));
        assert((k - 1) * cs + cs == k * cs) by (nonlinear_arith);
        assert(out@[k - 1].end_offset == total - 1);
    }
    out
}

} // verus!
