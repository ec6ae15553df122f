use vstd::prelude::*;

use std::path::PathBuf;

use crate::error::ProxyError;
use crate::range::{
    clamp_result, is_range_text, parse_range, parse_result, range_of_text, range_bytes, ByteRange, EffectiveRange,
};

verus! {

#[verifier::external_type_specification]
#[verifier::external_body]
pub struct ExPathBuf(PathBuf);

/// Relies on `Path::to_string_lossy`: the path as text, with any sequence
/// that is not valid UTF-8 replaced.
#[verifier::external_body]
fn path_text(p: &PathBuf) -> String {
    p.to_string_lossy().into_owned()
}

/// A cache file and the range of it that a request asks for.
#[derive(Debug, Clone)]
pub struct FileSource {
    pub path: String,
    pub range: String,
}

/// What validating a source's range against a file of `file_size` bytes
/// yields: the parse failure, if any, then the bounds check and clamping.
pub open spec fn effective_result(range: Seq<char>, file_size: u64) -> Result<
    EffectiveRange,
    ProxyError,
> {
    match parse_result(range) {
        Ok(r) => clamp_result(r, file_size),
        Err(e) => Err(e),
    }
}

impl FileSource {
    /// A source for the cache file at `path`, restricted to `range`.
    pub fn new(path: &str, range: &str) -> (r: Self)
        ensures
            r.path@ == path@,
            r.range@ == range@,
    {
        FileSource { path: path.to_string(), range: range.to_string() }
    }

    /// A source for a path that a resolver produced. A resolution failure is
    /// handed back unchanged.
    pub fn from_path_buf(path: Result<PathBuf, ProxyError>, range: &str) -> (r: Result<
        Self,
        ProxyError,
    >)
        ensures
            path is Err ==> r == Err::<Self, ProxyError>(path->Err_0),
            path is Ok ==> (r matches Ok(s) && s.range@ == range@),
    {
        let p = match path {
            Ok(p) => p,
            Err(e) => {
                return Err(e);
            },
        };
        Ok(FileSource { path: path_text(&p), range: range.to_string() })
    }

    /// The requested range, parsed. Needs no access to the file.
    pub fn byte_range(&self) -> (r: Result<ByteRange, ProxyError>)
        ensures
            r == parse_result(self.range@),
            r matches Ok(br) ==> br.wf(),
    {
        parse_range(self.range.as_str())
    }

    /// The span to read from a file of `file_size` bytes: the range parsed,
    /// checked to start inside the file, and clamped to its end. Reading
    /// data and opening a stream both go through here.
    pub fn effective_range(&self, file_size: u64) -> (r: Result<EffectiveRange, ProxyError>)
        ensures
            r == effective_result(self.range@, file_size),
            r matches Ok(e) ==> e.start < e.end_exclusive <= file_size,
    {
        let br = self.byte_range()?;
        br.clamp(file_size)
    }
}

/// Within the file, a range `start..=end` yields exactly the
/// `end - start + 1` bytes at those offsets.
pub proof fn lemma_read_within_file(file: Seq<u8>, r: ByteRange)
    requires
        file.len() <= u64::MAX,
        r.start <= r.end < file.len(),
    ensures
        clamp_result(r, file.len() as u64) matches Ok(e) && range_bytes(file, e).len() == r.end
            - r.start + 1 && forall|i: int|
            0 <= i < range_bytes(file, e).len() ==> #[trigger] range_bytes(file, e)[i] == file[r.start
                + i],
{
}

/// A well-formed range that starts at or after the end of the file is
/// refused as out of bounds, by reading and streaming alike.
pub proof fn lemma_start_past_end_refused(range: Seq<char>, file_size: u64)
    requires
        is_range_text(range),
        range_of_text(range).start >= file_size,
    ensures
        effective_result(range, file_size) == Err::<EffectiveRange, ProxyError>(
            ProxyError::RangeOutOfBounds,
        ),
{
}

/// A range that runs past the end of the file is clamped to its last byte:
/// it yields `file_size - start` bytes.
pub proof fn lemma_clamped_to_file_end(file: Seq<u8>, r: ByteRange)
    requires
        file.len() <= u64::MAX,
        r.start < file.len() <= r.end,
    ensures
        clamp_result(r, file.len() as u64) matches Ok(e) && e.end_exclusive == file.len()
            && range_bytes(file, e) == file.subrange(r.start as int, file.len() as int)
            && range_bytes(file, e).len() == file.len() - r.start,
{
}

} // verus!
