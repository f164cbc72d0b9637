use chunked_transfer_encoding::stream::{
    encode_chunk, terminator, ChunkedStream, PullEvent, PullOutcome,
};

fn expect_chunk(out: PullOutcome) -> Vec<u8> {
    match out {
        PullOutcome::Chunk(bytes) => bytes,
        PullOutcome::Finished => panic!("expected a chunk, stream finished"),
        PullOutcome::Suspended => panic!("expected a chunk, stream suspended"),
    }
}

fn expect_finished(out: PullOutcome) {
    match out {
        PullOutcome::Finished => {}
        PullOutcome::Chunk(_) => panic!("expected the stream to be finished, got a chunk"),
        PullOutcome::Suspended => panic!("expected the stream to be finished, got a suspension"),
    }
}

#[test]
fn test_chunked_stream() {
    let items = vec!["Wiki", "pedia ", "in \r\n\r\nchunks."];
    let mut st = ChunkedStream::new(items.clone());
    let mut outputs: Vec<Vec<u8>> = Vec::new();
    for k in 0..st.inner.len() {
        assert!(!st.is_done());
        let item = st.inner[k];
        outputs.push(expect_chunk(st.pull(PullEvent::Item(item.as_bytes().to_vec()))));
    }
    assert!(!st.is_done());
    outputs.push(expect_chunk(st.pull(PullEvent::Exhausted)));
    assert!(st.is_done());
    expect_finished(st.pull(PullEvent::Exhausted));
    assert_eq!(
        outputs,
        vec![
            b"4\r\nWiki\r\n".to_vec(),
            b"6\r\npedia \r\n".to_vec(),
            b"E\r\nin \r\n\r\nchunks.\r\n".to_vec(),
            b"0\r\n\r\n".to_vec(),
        ]
    );

    let items = vec!["Wiki", "pedia ", "in \r\n\r\nchunks.", ""];
    let mut st = ChunkedStream::new(items.clone());
    let mut outputs: Vec<Vec<u8>> = Vec::new();
    for k in 0..st.inner.len() {
        let item = st.inner[k];
        match st.pull(PullEvent::Item(item.as_bytes().to_vec())) {
            PullOutcome::Chunk(bytes) => outputs.push(bytes),
            PullOutcome::Finished => {}
            PullOutcome::Suspended => panic!("stream suspended unexpectedly"),
        }
    }
    assert!(st.is_done());
    expect_finished(st.pull(PullEvent::Exhausted));
    assert_eq!(
        outputs,
        vec![
            b"4\r\nWiki\r\n".to_vec(),
            b"6\r\npedia \r\n".to_vec(),
            b"E\r\nin \r\n\r\nchunks.\r\n".to_vec(),
            b"0\r\n\r\n".to_vec(),
        ]
    );
}

#[test]
fn test_empty_buffer_emits_terminator_and_terminates() {
    let mut st = ChunkedStream::new(());
    let out = expect_chunk(st.pull(PullEvent::Item(Vec::new())));
    assert_eq!(out, b"0\r\n\r\n".to_vec());
    assert!(st.is_done());
    // Anything the producer would still offer is ignored.
    expect_finished(st.pull(PullEvent::Item(b"late".to_vec())));
    expect_finished(st.pull(PullEvent::Exhausted));
}

#[test]
fn test_exhaustion_emits_terminator_once() {
    let mut st = ChunkedStream::new(());
    let first = expect_chunk(st.pull(PullEvent::Item(b"data".to_vec())));
    assert_eq!(first, b"4\r\ndata\r\n".to_vec());
    let last = expect_chunk(st.pull(PullEvent::Exhausted));
    assert_eq!(last, b"0\r\n\r\n".to_vec());
    assert!(st.is_done());
    expect_finished(st.pull(PullEvent::Exhausted));
    expect_finished(st.pull(PullEvent::Suspended));
    expect_finished(st.pull(PullEvent::Item(b"x".to_vec())));
}

#[test]
fn test_suspension_passes_through_unchanged() {
    let mut st = ChunkedStream::new(());
    match st.pull(PullEvent::Suspended) {
        PullOutcome::Suspended => {}
        PullOutcome::Chunk(_) => panic!("a suspension must not produce a chunk"),
        PullOutcome::Finished => panic!("a suspension must not finish the stream"),
    }
    assert!(!st.is_done());
    // The stream still works after a suspension.
    let out = expect_chunk(st.pull(PullEvent::Item(b"ok".to_vec())));
    assert_eq!(out, b"2\r\nok\r\n".to_vec());
}

#[test]
fn test_encode_chunk_exact_frames() {
    assert_eq!(encode_chunk(b"Wiki".to_vec()), b"4\r\nWiki\r\n".to_vec());
    assert_eq!(encode_chunk(Vec::new()), b"0\r\n\r\n".to_vec());
    // Payload bytes pass through verbatim, embedded CRLF included.
    assert_eq!(
        encode_chunk(b"in \r\n\r\nchunks.".to_vec()),
        b"E\r\nin \r\n\r\nchunks.\r\n".to_vec()
    );
    // A payload of 16 bytes gets a two-digit size line.
    assert_eq!(
        encode_chunk(b"0123456789abcdef".to_vec()),
        b"10\r\n0123456789abcdef\r\n".to_vec()
    );
    assert_eq!(terminator(), b"0\r\n\r\n".to_vec());
}

#[test]
fn test_new_starts_active() {
    let st = ChunkedStream::new(vec![1u8, 2u8]);
    assert!(!st.is_done());
    assert_eq!(st.inner, vec![1u8, 2u8]);
}
