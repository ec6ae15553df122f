//! Cached byte-range reading: parsing of range specifications, clamping of a
//! requested span against a cache file's size, and the cursor that drives a
//! bounded, chunked byte stream over that span.

mod error;
mod range;
mod file_source;
mod stream;

pub use error::ProxyError;
pub use range::{parse_range, ByteRange, EffectiveRange};
pub use file_source::FileSource;
pub use stream::{StreamCursor, StreamState, StreamStep};
