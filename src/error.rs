use vstd::prelude::*;

verus! {

/// The ways in which a cached range read can fail.
#[derive(Debug, Clone)]
pub enum ProxyError {
    /// The range specification is malformed or unsatisfiable as written.
    InvalidRange,
    /// The requested start offset lies at or after the end of the file.
    RangeOutOfBounds,
    /// Opening, seeking or reading the cache file failed.
    Io(String),
    /// The resource could not be mapped to a cache file.
    CacheResolution(String),
}

impl ProxyError {
    /// True for the two kinds that a request handler answers with a
    /// range-not-satisfiable response.
    pub fn is_range_error(&self) -> (r: bool)
        ensures
            r == (self is InvalidRange || self is RangeOutOfBounds),
    {
        match self {
            ProxyError::InvalidRange => true,
            ProxyError::RangeOutOfBounds => true,
            _ => false,
        }
    }
}

} // verus!
