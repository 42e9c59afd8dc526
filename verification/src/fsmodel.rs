use vstd::prelude::*;

use crate::strutil::str_eq;

verus! {

/// One staging file: the bytes received so far for one chunk, keyed by the
/// sanitized file name and the chunk's start offset.
pub struct StagingFile {
    pub filename: String,
    pub start_offset: u64,
    pub bytes: Vec<u8>,
}

/// One published (assembled) file, keyed by its path.
pub struct PublishedFile {
    pub path: String,
    pub bytes: Vec<u8>,
}

/// Mathematical image of a staging file.
#[verifier::ext_equal]
pub struct StagingRec {
    pub filename: Seq<char>,
    pub start_offset: int,
    pub bytes: Seq<u8>,
}

/// Mathematical image of a published file.
#[verifier::ext_equal]
pub struct PublishedRec {
    pub path: Seq<char>,
    pub bytes: Seq<u8>,
}

impl View for StagingFile {
    type V = StagingRec;

    open spec fn view(&self) -> StagingRec {
        StagingRec {
            filename: self.filename@,
            start_offset: self.start_offset as int,
            bytes: self.bytes@,
        }
    }
}

impl View for PublishedFile {
    type V = PublishedRec;

    open spec fn view(&self) -> PublishedRec {
        PublishedRec { path: self.path@, bytes: self.bytes@ }
    }
}

/// A file after writing `data` at position `off`, overwriting in place,
/// keeping the prefix and the tail, and zero-filling any gap before `off`.
/// Writing nothing changes nothing: a file grows only when bytes land past
/// its end.
pub open spec fn write_at(file: Seq<u8>, off: int, data: Seq<u8>) -> Seq<u8> {
    if data.len() == 0 {
        file
    } else {
        let n = if file.len() >= off + data.len() {
            file.len() as int
        } else {
            off + data.len()
        };
        Seq::new(
            n as nat,
            |i: int|
                if off <= i < off + data.len() {
                    data[i - off]
                } else if i < file.len() {
                    file[i]
                } else {
                    0u8
                },
        )
    }
}

/// Overwrites `data` into `buf` at position `off`, growing the buffer and
/// zero-filling any gap as a seek past the end of a file would.
pub fn overwrite_at(buf: &mut Vec<u8>, off: usize, data: &[u8])
    requires
        off + data@.len() <= usize::MAX,
    ensures
        final(buf)@ == write_at(old(buf)@, off as int, data@),
{
    if data.len() == 0 {
        return ;
    }
    let ghost target = write_at(old(buf)@, off as int, data@);
    while buf.len() < off
        invariant
            off + data@.len() <= usize::MAX,
            old(buf)@.len() <= buf@.len() <= vstd::math::max(off as int, old(buf)@.len() as int),
            forall|i: int|
                0 <= i < buf@.len() ==> #[trigger] buf@[i] == (if i < old(buf)@.len() {
                    old(buf)@[i]
                } else {
                    0u8
                }),
        decreases off - buf@.len(),
    {
        buf.push(0u8);
    }
    let n = data.len();
    let mut j: usize = 0;
    while j < n
        invariant
            n == data@.len(),
            off + n <= usize::MAX,
            0 <= j <= n,
            buf@.len() == vstd::math::max(off as int + j, old(buf)@.len() as int),
            forall|i: int|
                0 <= i < buf@.len() ==> #[trigger] buf@[i] == (if off <= i < off + j {
                    data@[i - off]
                } else if i < old(buf)@.len() {
                    old(buf)@[i]
                } else {
                    0u8
                }),
        decreases n - j,
    {
        let pos = off + j;
        if pos < buf.len() {
            buf.set(pos, data[j]);
        } else {
            buf.push(data[j]);
        }
        j = j + 1;
    }
    proof {
        assert(buf@ =~= target);
    }
}

/// Index of the staging file for this name and offset, if one exists.
pub fn find_staging(staging: &Vec<StagingFile>, filename: &str, start_offset: u64) -> (r: Option<
    usize,
>)
    ensures
        match r {
            Some(i) => 0 <= i < staging@.len() && staging@[i as int]@.filename == filename@
                && staging@[i as int]@.start_offset == start_offset as int,
            None => forall|i: int|
                0 <= i < staging@.len() ==> !((#[trigger] staging@[i]@).filename == filename@
                    && staging@[i]@.start_offset == start_offset as int),
        },
{
    let n = staging.len();
    let mut i: usize = 0;
    while i < n
        invariant
            n == staging@.len(),
            0 <= i <= n,
            forall|k: int|
                0 <= k < i ==> !((#[trigger] staging@[k]@).filename == filename@
                    && staging@[k]@.start_offset == start_offset as int),
        decreases n - i,
    {
        if staging[i].start_offset == start_offset && str_eq(staging[i].filename.as_str(), filename) {
            return Some(i);
        }
        i = i + 1;
    }
    None
}

/// Index of the published file at this path, if one exists.
pub fn find_published(published: &Vec<PublishedFile>, path: &str) -> (r: Option<usize>)
    ensures
        match r {
            Some(i) => 0 <= i < published@.len() && published@[i as int]@.path == path@,
            None => forall|i: int|
                0 <= i < published@.len() ==> (#[trigger] published@[i]@).path != path@,
        },
{
    let n = published.len();
    let mut i: usize = 0;
    while i < n
        invariant
            n == published@.len(),
            0 <= i <= n,
            forall|k: int| 0 <= k < i ==> (#[trigger] published@[k]@).path != path@,
        decreases n - i,
    {
        if str_eq(published[i].path.as_str(), path) {
            return Some(i);
        }
        i = i + 1;
    }
    None
}

/// A copy of a staging file's bytes.
pub fn take_bytes(sf: &StagingFile) -> (r: Vec<u8>)
    ensures
        r@ == sf@.bytes,
{
    vstd::slice::slice_to_vec(sf.bytes.as_slice())
}

/// Appends all bytes of `src` to `dst`.
pub fn append_bytes(dst: &mut Vec<u8>, src: &Vec<u8>)
    requires
        old(dst)@.len() + src@.len() <= usize::MAX,
    ensures
        final(dst)@ == old(dst)@ + src@,
{
    let n = src.len();
    let mut j: usize = 0;
    while j < n
        invariant
            n == src@.len(),
            0 <= j <= n,
            dst@ == old(dst)@ + src@.take(j as int),
            old(dst)@.len() + src@.len() <= usize::MAX,
        decreases n - j,
    {
        dst.push(src[j]);
        proof {
            assert(dst@ =~= old(dst)@ + src@.take(j as int + 1));
        }
        j = j + 1;
    }
    proof {
        assert(src@.take(n as int) =~= src@);
    }
}

} // verus!
