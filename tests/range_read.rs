use proxy_server::{
    parse_range, ByteRange, EffectiveRange, FileSource, ProxyError, StreamCursor, StreamState,
    StreamStep,
};
use std::path::PathBuf;

fn file_of(size: usize) -> Vec<u8> {
    (0..size).map(|i| (i % 251) as u8).collect()
}

fn read_range(file: &[u8], e: EffectiveRange) -> Vec<u8> {
    file[e.start as usize..e.end_exclusive as usize].to_vec()
}

/// Runs a stream over an in-memory file, each read returning what it asks for.
fn stream_all(file: &[u8], e: EffectiveRange, buffer_size: usize) -> (Vec<Vec<u8>>, StreamState) {
    let mut cursor = StreamCursor::new(e, buffer_size);
    let mut chunks = Vec::new();
    while let Some(n) = cursor.next_read_len() {
        let pos = cursor.current_pos() as usize;
        let avail = file.len().saturating_sub(pos).min(n);
        let mut buffer = vec![0u8; n];
        buffer[..avail].copy_from_slice(&file[pos..pos + avail]);
        match cursor.on_read(buffer, Ok(avail)) {
            StreamStep::Chunk(c) => chunks.push(c.to_vec()),
            StreamStep::Done => break,
            StreamStep::Failed(e) => panic!("unexpected failure {:?}", e),
        }
    }
    (chunks, cursor.state())
}

#[test]
fn parses_closed_range() {
    let r = parse_range("0-99").unwrap();
    assert_eq!(r, ByteRange { start: 0, end: 99 });
    let r = parse_range("950-2000").unwrap();
    assert_eq!(r, ByteRange { start: 950, end: 2000 });
}

#[test]
fn parses_open_range() {
    let r = parse_range("500-").unwrap();
    assert_eq!(r, ByteRange { start: 500, end: u64::MAX });
}

#[test]
fn parses_single_byte_and_largest_offsets() {
    assert_eq!(parse_range("7-7").unwrap(), ByteRange { start: 7, end: 7 });
    let r = parse_range("18446744073709551615-18446744073709551615").unwrap();
    assert_eq!(r, ByteRange { start: u64::MAX, end: u64::MAX });
}

#[test]
fn rejects_malformed_ranges() {
    for text in [
        "abc-10", "", "-", "-10", "10", "10-5", "1-2-3", " 1-2", "1-2 ", "1_2", "1-x",
        "18446744073709551616-", "0-18446744073709551616", "٣-٤",
    ] {
        assert!(
            matches!(parse_range(text), Err(ProxyError::InvalidRange)),
            "{:?} should be refused",
            text
        );
    }
}

#[test]
fn clamps_against_file_size() {
    let e = ByteRange { start: 0, end: 99 }.clamp(1000).unwrap();
    assert_eq!(e, EffectiveRange { start: 0, end_exclusive: 100 });
    let e = ByteRange { start: 950, end: 2000 }.clamp(1000).unwrap();
    assert_eq!(e, EffectiveRange { start: 950, end_exclusive: 1000 });
    assert_eq!(e.len(), 50);
    let e = ByteRange { start: 999, end: 999 }.clamp(1000).unwrap();
    assert_eq!(e.len(), 1);
    let e = ByteRange { start: 3, end: u64::MAX }.clamp(u64::MAX).unwrap();
    assert_eq!(e, EffectiveRange { start: 3, end_exclusive: u64::MAX });
}

#[test]
fn start_at_or_past_end_is_out_of_bounds() {
    assert!(matches!(
        ByteRange { start: 1000, end: 1010 }.clamp(1000),
        Err(ProxyError::RangeOutOfBounds)
    ));
    assert!(matches!(
        ByteRange { start: 5000, end: 6000 }.clamp(1000),
        Err(ProxyError::RangeOutOfBounds)
    ));
    assert!(matches!(
        ByteRange { start: 0, end: 0 }.clamp(0),
        Err(ProxyError::RangeOutOfBounds)
    ));
}

#[test]
fn scenario_file_of_thousand_bytes() {
    let file = file_of(1000);
    let size = file.len() as u64;

    let e = FileSource::new("/cache/a", "0-99").effective_range(size).unwrap();
    let data = read_range(&file, e);
    assert_eq!(data.len(), 100);
    assert_eq!(data, file[0..100].to_vec());

    let e = FileSource::new("/cache/a", "950-2000").effective_range(size).unwrap();
    let data = read_range(&file, e);
    assert_eq!(data.len(), 50);
    assert_eq!(data, file[950..1000].to_vec());

    assert!(matches!(
        FileSource::new("/cache/a", "1000-1010").effective_range(size),
        Err(ProxyError::RangeOutOfBounds)
    ));
    assert!(matches!(
        FileSource::new("/cache/a", "abc-10").effective_range(size),
        Err(ProxyError::InvalidRange)
    ));
}

#[test]
fn read_within_file_returns_requested_bytes() {
    let file = file_of(300);
    for (start, end) in [(0u64, 0u64), (0, 299), (10, 20), (299, 299), (128, 255)] {
        let src = FileSource::new("/cache/b", &format!("{}-{}", start, end));
        let e = src.effective_range(file.len() as u64).unwrap();
        let data = read_range(&file, e);
        assert_eq!(data.len() as u64, end - start + 1);
        assert_eq!(data, file[start as usize..=end as usize].to_vec());
    }
}

#[test]
fn range_past_end_is_clamped_to_last_byte() {
    let file = file_of(300);
    let e = FileSource::new("/cache/b", "250-999").effective_range(300).unwrap();
    assert_eq!(e.len(), 50);
    assert_eq!(read_range(&file, e), file[250..300].to_vec());
    let e = FileSource::new("/cache/b", "250-").effective_range(300).unwrap();
    assert_eq!(e.len(), 50);
}

#[test]
fn parse_failure_comes_before_bounds() {
    let src = FileSource::new("/cache/c", "9-1");
    assert!(matches!(src.byte_range(), Err(ProxyError::InvalidRange)));
    assert!(matches!(src.effective_range(0), Err(ProxyError::InvalidRange)));
}

#[test]
fn source_keeps_path_and_range() {
    let src = FileSource::new("/var/cache/x.mp4", "0-1023");
    assert_eq!(src.path, "/var/cache/x.mp4");
    assert_eq!(src.range, "0-1023");
}

#[test]
fn from_path_buf_takes_resolved_path() {
    let src = FileSource::from_path_buf(Ok(PathBuf::from("/var/cache/y.bin")), "5-9").unwrap();
    assert_eq!(src.path, "/var/cache/y.bin");
    assert_eq!(src.range, "5-9");
}

#[test]
fn from_path_buf_passes_resolution_failure_on() {
    let r = FileSource::from_path_buf(
        Err(ProxyError::CacheResolution("never cached".to_string())),
        "0-1",
    );
    match r {
        Err(ProxyError::CacheResolution(msg)) => assert_eq!(msg, "never cached"),
        other => panic!("unexpected {:?}", other),
    }
}

#[test]
fn stream_concatenation_equals_read_for_any_chunk_size() {
    let file = file_of(1000);
    for range in ["0-99", "950-2000", "0-", "17-733", "999-999"] {
        let e = FileSource::new("/cache/d", range).effective_range(1000).unwrap();
        let whole = read_range(&file, e);
        for buffer_size in [1usize, 3, 7, 64, 100, 8192] {
            let (chunks, state) = stream_all(&file, e, buffer_size);
            assert_eq!(state, StreamState::Exhausted);
            assert!(chunks.iter().all(|c| !c.is_empty() && c.len() <= buffer_size));
            assert_eq!(chunks.concat(), whole, "range {} chunk {}", range, buffer_size);
        }
    }
}

#[test]
fn stream_chunk_sizes_follow_buffer() {
    let file = file_of(1000);
    let e = EffectiveRange { start: 950, end_exclusive: 1000 };
    let (chunks, _) = stream_all(&file, e, 16);
    let sizes: Vec<usize> = chunks.iter().map(|c| c.len()).collect();
    assert_eq!(sizes, vec![16, 16, 16, 2]);
}

#[test]
fn stream_never_reads_past_range() {
    let mut cursor = StreamCursor::new(EffectiveRange { start: 10, end_exclusive: 15 }, 8192);
    assert_eq!(cursor.next_read_len(), Some(5));
    match cursor.on_read(vec![1, 2, 3, 4, 5], Ok(5)) {
        StreamStep::Chunk(c) => assert_eq!(c, vec![1, 2, 3, 4, 5]),
        other => panic!("unexpected {:?}", other),
    }
    assert_eq!(cursor.current_pos(), 15);
    assert_eq!(cursor.state(), StreamState::Exhausted);
    assert_eq!(cursor.next_read_len(), None);
    assert!(matches!(cursor.on_read(vec![0; 4], Ok(4)), StreamStep::Done));
}

#[test]
fn stream_truncates_buffer_to_bytes_read() {
    let mut cursor = StreamCursor::new(EffectiveRange { start: 0, end_exclusive: 100 }, 10);
    match cursor.on_read(vec![9, 8, 7, 6, 5, 4, 3, 2, 1, 0], Ok(3)) {
        StreamStep::Chunk(c) => assert_eq!(c, vec![9, 8, 7]),
        other => panic!("unexpected {:?}", other),
    }
    assert_eq!(cursor.current_pos(), 3);
    assert!(cursor.is_open());
    assert_eq!(cursor.next_read_len(), Some(10));
}

#[test]
fn stream_ends_quietly_on_early_eof() {
    let mut cursor = StreamCursor::new(EffectiveRange { start: 0, end_exclusive: 100 }, 10);
    assert!(matches!(cursor.on_read(vec![0; 10], Ok(10)), StreamStep::Chunk(_)));
    assert!(matches!(cursor.on_read(vec![0; 10], Ok(0)), StreamStep::Done));
    assert_eq!(cursor.state(), StreamState::Exhausted);
    assert!(!cursor.is_open());
    assert_eq!(cursor.current_pos(), 10);
    assert_eq!(cursor.next_read_len(), None);
}

#[test]
fn stream_fails_once_on_read_error() {
    let mut cursor = StreamCursor::new(EffectiveRange { start: 0, end_exclusive: 100 }, 10);
    match cursor.on_read(vec![0; 10], Err("disk gone".to_string())) {
        StreamStep::Failed(ProxyError::Io(msg)) => assert_eq!(msg, "disk gone"),
        other => panic!("unexpected {:?}", other),
    }
    assert_eq!(cursor.state(), StreamState::Failed);
    assert_eq!(cursor.next_read_len(), None);
    assert!(matches!(cursor.on_read(vec![0; 10], Ok(10)), StreamStep::Done));
    assert_eq!(cursor.current_pos(), 0);
}

#[test]
fn stream_fails_on_overlong_read_count() {
    let mut cursor = StreamCursor::new(EffectiveRange { start: 0, end_exclusive: 4 }, 10);
    assert!(matches!(
        cursor.on_read(vec![0; 10], Ok(6)),
        StreamStep::Failed(ProxyError::Io(_))
    ));
    assert_eq!(cursor.state(), StreamState::Failed);
    let mut cursor = StreamCursor::new(EffectiveRange { start: 0, end_exclusive: 100 }, 10);
    assert!(matches!(
        cursor.on_read(vec![0; 2], Ok(3)),
        StreamStep::Failed(ProxyError::Io(_))
    ));
}

#[test]
fn empty_range_stream_starts_exhausted() {
    let cursor = StreamCursor::new(EffectiveRange { start: 5, end_exclusive: 5 }, 10);
    assert_eq!(cursor.state(), StreamState::Exhausted);
    assert_eq!(cursor.next_read_len(), None);
    assert_eq!(cursor.end_pos(), 5);
}

#[test]
fn error_kinds_for_range_responses() {
    assert!(ProxyError::InvalidRange.is_range_error());
    assert!(ProxyError::RangeOutOfBounds.is_range_error());
    assert!(!ProxyError::Io("x".to_string()).is_range_error());
    assert!(!ProxyError::CacheResolution("x".to_string()).is_range_error());
}
