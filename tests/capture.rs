use speakeasy_rust_sdk::capture::{capture_stream, BodyCapture, BodyCaptureState, MAX_SIZE};

#[test]
fn body_under_ceiling_is_kept_whole() {
    let chunks = vec![b"hello ".to_vec(), b"world".to_vec()];
    let (state, forwarded) = capture_stream(16, None, chunks);
    assert_eq!(state, BodyCapture::Captured(b"hello world".to_vec()));
    assert_eq!(forwarded, b"hello world".to_vec());
}

#[test]
fn body_at_ceiling_is_kept() {
    let (state, forwarded) = capture_stream(4, Some(4), vec![b"ab".to_vec(), b"cd".to_vec()]);
    assert_eq!(state, BodyCapture::Captured(b"abcd".to_vec()));
    assert_eq!(forwarded.len(), 4);
}

#[test]
fn body_over_ceiling_is_dropped_but_forwarded() {
    let (state, forwarded) = capture_stream(4, None, vec![b"abc".to_vec(), b"de".to_vec(), b"f".to_vec()]);
    assert_eq!(state, BodyCapture::Dropped);
    assert_eq!(forwarded, b"abcdef".to_vec());
}

#[test]
fn empty_body_is_empty() {
    let (state, forwarded) = capture_stream(4, None, vec![]);
    assert_eq!(state, BodyCapture::Empty);
    assert!(forwarded.is_empty());
    let (state, _) = capture_stream(4, Some(0), vec![Vec::new()]);
    assert_eq!(state, BodyCapture::Empty);
}

#[test]
fn declared_length_over_ceiling_drops_at_once() {
    let mut state = BodyCaptureState::new(10, Some(11));
    assert_eq!(state.feed(b"abc".to_vec()), b"abc".to_vec());
    assert_eq!(state.finish(), BodyCapture::Dropped);
}

#[test]
fn two_mebibyte_body_under_one_mebibyte_ceiling() {
    let chunk = vec![7u8; 64 * 1024];
    let chunks: Vec<Vec<u8>> = (0..32).map(|_| chunk.clone()).collect();
    let (state, forwarded) = capture_stream(MAX_SIZE, None, chunks);
    assert_eq!(MAX_SIZE, 1024 * 1024);
    assert_eq!(state, BodyCapture::Dropped);
    assert_eq!(forwarded.len(), 2 * 1024 * 1024);
    assert!(forwarded.iter().all(|b| *b == 7));
}
