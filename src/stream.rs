use vstd::prelude::*;

use bytes::Bytes;

use crate::error::ProxyError;
use crate::range::{clamp_result, range_bytes, ByteRange, EffectiveRange};

verus! {

#[verifier::external_type_specification]
#[verifier::external_body]
pub struct ExBytes(Bytes);

/// The bytes that a `Bytes` buffer holds, in order.
pub uninterp spec fn bytes_content(b: Bytes) -> Seq<u8>;

/// Relies on `impl From<Vec<u8>> for Bytes`: the buffer takes over the
/// vector's bytes unchanged, in order.
#[verifier::external_body]
fn into_bytes(v: Vec<u8>) -> (r: Bytes)
    ensures
        bytes_content(r) == v@,
{
    Bytes::from(v)
}

/// Where a bounded byte stream stands. Only an open stream holds its file.
#[derive(Debug, Clone, Copy, PartialEq, Eq, Structural)]
pub enum StreamState {
    Open,
    Exhausted,
    Failed,
}

/// What one production step of the stream hands to its consumer.
#[derive(Debug)]
pub enum StreamStep {
    /// The next bytes of the range, in file order.
    Chunk(Bytes),
    /// The stream has ended; nothing more will be produced.
    Done,
    /// A read failed; this is the last item of the stream.
    Failed(ProxyError),
}

/// The position of a bounded byte stream within its clamped range. The
/// owner of the file asks it how much to read next and reports back what
/// each read returned; the cursor decides what the stream produces.
#[derive(Debug)]
pub struct StreamCursor {
    start_pos: u64,
    current_pos: u64,
    end_pos: u64,
    buffer_size: usize,
    state: StreamState,
}

/// The chunks that a stream over `file` produces from `pos` up to `end`
/// when every read returns as many bytes as it asks for, `buf` at most.
pub open spec fn stream_chunks(file: Seq<u8>, pos: int, end: int, buf: nat) -> Seq<Seq<u8>>
    decreases end - pos,
{
    if pos >= end || buf == 0 {
        Seq::empty()
    } else {
        let n = chunk_len(pos, end, buf);
        seq![file.subrange(pos, pos + n)] + stream_chunks(file, pos + n, end, buf)
    }
}

/// The size of the next read at `pos`, for a range ending at `end`.
pub open spec fn chunk_len(pos: int, end: int, buf: nat) -> int {
    if buf < end - pos {
        buf as int
    } else {
        end - pos
    }
}

impl StreamCursor {
    pub closed spec fn start_spec(&self) -> u64 {
        self.start_pos
    }

    pub closed spec fn pos_spec(&self) -> u64 {
        self.current_pos
    }

    pub closed spec fn end_spec(&self) -> u64 {
        self.end_pos
    }

    pub closed spec fn buffer_size_spec(&self) -> usize {
        self.buffer_size
    }

    pub closed spec fn state_spec(&self) -> StreamState {
        self.state
    }

    pub closed spec fn wf(&self) -> bool {
        &&& self.start_pos <= self.current_pos <= self.end_pos
        &&& self.buffer_size > 0
        &&& self.state == StreamState::Open ==> self.current_pos < self.end_pos
    }

    /// A cursor at the start of `range`, reading at most `buffer_size` bytes
    /// at a time. An empty range starts out exhausted.
    pub fn new(range: EffectiveRange, buffer_size: usize) -> (r: Self)
        requires
            range.start <= range.end_exclusive,
            buffer_size > 0,
        ensures
            r.wf(),
            r.start_spec() == range.start,
            r.pos_spec() == range.start,
            r.end_spec() == range.end_exclusive,
            r.buffer_size_spec() == buffer_size,
            r.state_spec() == (if range.start < range.end_exclusive {
                StreamState::Open
            } else {
                StreamState::Exhausted
            }),
    {
        let state = if range.start < range.end_exclusive {
            StreamState::Open
        } else {
            StreamState::Exhausted
        };
        StreamCursor {
            start_pos: range.start,
            current_pos: range.start,
            end_pos: range.end_exclusive,
            buffer_size,
            state,
        }
    }

    /// The next unread offset.
    pub fn current_pos(&self) -> (r: u64)
        ensures
            r == self.pos_spec(),
    {
        self.current_pos
    }

    /// The exclusive end of the range.
    pub fn end_pos(&self) -> (r: u64)
        ensures
            r == self.end_spec(),
    {
        self.end_pos
    }

    pub fn state(&self) -> (r: StreamState)
        ensures
            r == self.state_spec(),
    {
        self.state
    }

    /// Whether the file should still be held open.
    pub fn is_open(&self) -> (r: bool)
        ensures
            r == (self.state_spec() == StreamState::Open),
    {
        self.state == StreamState::Open
    }

    /// How many bytes to read next: the buffer size, bounded by what is
    /// left of the range; `None` once the stream is no longer open.
    pub fn next_read_len(&self) -> (r: Option<usize>)
        requires
            self.wf(),
        ensures
            self.state_spec() == StreamState::Open <==> r is Some,
            r matches Some(n) ==> n == chunk_len(
                self.pos_spec() as int,
                self.end_spec() as int,
                self.buffer_size_spec() as nat,
            ) && n > 0,
    {
        if self.state != StreamState::Open {
            return None;
        }
        let remaining: u64 = self.end_pos - self.current_pos;
        if (self.buffer_size as u64) < remaining {
            Some(self.buffer_size)
        } else {
            Some(remaining as usize)
        }
    }

    /// Takes the outcome of one read into `buffer`: `Ok(n)` for `n` bytes
    /// read into its front, `Err` with the failure's description.
    ///
    /// On an open stream, `n > 0` bytes advance the cursor by `n` and are
    /// produced as the next chunk; zero bytes end the stream with nothing
    /// more produced; a failure, or a count beyond the buffer or the range,
    /// ends it with one `Io` failure. A stream that is no longer open
    /// produces nothing and does not change.
    pub fn on_read(&mut self, buffer: Vec<u8>, outcome: Result<usize, String>) -> (r: StreamStep)
        requires
            old(self).wf(),
        ensures
            final(self).wf(),
            final(self).start_spec() == old(self).start_spec(),
            final(self).end_spec() == old(self).end_spec(),
            final(self).buffer_size_spec() == old(self).buffer_size_spec(),
            old(self).state_spec() != StreamState::Open ==> *final(self) == *old(self) && r is Done,
            old(self).state_spec() == StreamState::Open ==> match outcome {
                Err(msg) => {
                    &&& r == StreamStep::Failed(ProxyError::Io(msg))
                    &&& final(self).state_spec() == StreamState::Failed
                    &&& final(self).pos_spec() == old(self).pos_spec()
                },
                Ok(n) => if n == 0 {
                    &&& r is Done
                    &&& final(self).state_spec() == StreamState::Exhausted
                    &&& final(self).pos_spec() == old(self).pos_spec()
                } else if n > buffer@.len() || n > old(self).end_spec() - old(self).pos_spec() {
                    &&& r matches StreamStep::Failed(e) && e is Io
                    &&& final(self).state_spec() == StreamState::Failed
                    &&& final(self).pos_spec() == old(self).pos_spec()
                } else {
                    &&& r matches StreamStep::Chunk(c) && bytes_content(c) == buffer@.subrange(0, n as int)
                    &&& final(self).pos_spec() == old(self).pos_spec() + n
                    &&& (final(self).pos_spec() == final(self).end_spec() ==> final(self).state_spec() == StreamState::Exhausted)
                    &&& (final(self).pos_spec() < final(self).end_spec() ==> final(self).state_spec() == StreamState::Open)
                },
            },
    {
        if self.state != StreamState::Open {
            return StreamStep::Done;
        }
        match outcome {
            Err(msg) => {
                self.state = StreamState::Failed;
                StreamStep::Failed(ProxyError::Io(msg))
            },
            Ok(n) => {
                if n == 0 {
                    self.state = StreamState::Exhausted;
                    return StreamStep::Done;
                }
                let remaining: u64 = self.end_pos - self.current_pos;
                if n > buffer.len() || n as u64 > remaining {
                    self.state = StreamState::Failed;
                    return StreamStep::Failed(
                        ProxyError::Io("read returned more bytes than were asked for".to_string()),
                    );
                }
                let mut chunk = buffer;
                chunk.truncate(n);
                self.current_pos = self.current_pos + n as u64;
                if self.current_pos == self.end_pos {
                    self.state = StreamState::Exhausted;
                }
                StreamStep::Chunk(into_bytes(chunk))
            },
        }
    }
}

proof fn lemma_chunks_cover(file: Seq<u8>, pos: int, end: int, buf: nat)
    requires
        0 <= pos <= end <= file.len(),
        buf > 0,
    ensures
        stream_chunks(file, pos, end, buf).flatten() == file.subrange(pos, end),
    decreases end - pos,
{
    if pos == end {
        assert(file.subrange(pos, end) =~= Seq::<u8>::empty());
    } else {
        let n = chunk_len(pos, end, buf);
        let rest = stream_chunks(file, pos + n, end, buf);
        let all = stream_chunks(file, pos, end, buf);
        lemma_chunks_cover(file, pos + n, end, buf);
        assert(all.drop_first() =~= rest);
        assert(all.first() == file.subrange(pos, pos + n));
        assert(file.subrange(pos, pos + n) + file.subrange(pos + n, end) =~= file.subrange(
            pos,
            end,
        ));
    }
}

/// The chunk that an open cursor at `pos` asks for (`next_read_len`) is the
/// first chunk of the rest of the stream, and the stream goes on from where
/// that chunk ends: chunks follow one another in file order, without gap or
/// overlap.
pub proof fn lemma_stream_step(file: Seq<u8>, pos: int, end: int, buf: nat)
    requires
        0 <= pos < end,
        buf > 0,
    ensures
        0 < chunk_len(pos, end, buf) <= end - pos,
        stream_chunks(file, pos, end, buf) == seq![
            file.subrange(pos, pos + chunk_len(pos, end, buf)),
        ] + stream_chunks(file, pos + chunk_len(pos, end, buf), end, buf),
{
}

/// For every chunk size, the chunks that a stream over a range produces,
/// joined in order, are exactly the bytes that reading the whole range
/// returns.
pub proof fn lemma_stream_matches_read(file: Seq<u8>, r: ByteRange, buffer_size: nat)
    requires
        file.len() <= u64::MAX,
        r.wf(),
        buffer_size > 0,
        clamp_result(r, file.len() as u64) is Ok,
    ensures
        ({
            let e = clamp_result(r, file.len() as u64)->Ok_0;
            stream_chunks(file, e.start as int, e.end_exclusive as int, buffer_size).flatten()
                == range_bytes(file, e)
        }),
{
    let e = clamp_result(r, file.len() as u64)->Ok_0;
    lemma_chunks_cover(file, e.start as int, e.end_exclusive as int, buffer_size);
}

} // verus!
