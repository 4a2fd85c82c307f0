use ucp_gui_core::errors::GuiError;
use ucp_gui_core::scanner::{compute_buffer_size, scan_bytes, scan_bytes_chunked, ScanState};

fn sample_data(len: usize, pattern: &[u8], at: usize) -> Vec<u8> {
    let mut data = vec![0x5au8; len];
    for (i, b) in pattern.iter().enumerate() {
        data[at + i] = *b;
    }
    data
}

#[test]
fn empty_pattern_is_invalid_input() {
    let data = vec![1u8, 2, 3];
    let r = scan_bytes(&data, &[], None);
    assert_eq!(r, Err(GuiError::InvalidInput));
    let r = scan_bytes(&[], &[], Some(100));
    assert_eq!(r, Err(GuiError::InvalidInput));
}

#[test]
fn zero_scan_amount_never_matches() {
    let pattern = [7u8, 8, 9];
    let data = sample_data(50_000, &pattern, 10);
    let r = scan_bytes(&data, &pattern, Some(0));
    assert_eq!(r, Ok(None));
}

#[test]
fn finds_first_offset() {
    let pattern = [1u8, 2, 3, 4];
    let mut data = sample_data(40_000, &pattern, 17_000);
    // A second occurrence later must not win.
    for (i, b) in pattern.iter().enumerate() {
        data[30_000 + i] = *b;
    }
    assert_eq!(scan_bytes(&data, &pattern, None), Ok(Some(17_000)));
}

#[test]
fn offset_zero_is_found() {
    let pattern = [9u8, 9, 1];
    let data = sample_data(100, &pattern, 0);
    assert_eq!(scan_bytes(&data, &pattern, None), Ok(Some(0)));
}

#[test]
fn pattern_longer_than_file_is_no_match() {
    let data = vec![3u8; 5];
    let pattern = vec![3u8; 6];
    assert_eq!(scan_bytes(&data, &pattern, None), Ok(None));
}

#[test]
fn same_offset_for_every_buffer_size() {
    let pattern = [0xde, 0xad, 0xbe, 0xef];
    let data = sample_data(70_000, &pattern, 33_333);
    for chunk in [1usize, 2, 3, 5, 7, 100, 8192, 16384, 70_000, 100_000] {
        assert_eq!(
            scan_bytes_chunked(&data, &pattern, None, chunk),
            Ok(Some(33_333)),
            "chunk size {chunk}"
        );
    }
}

#[test]
fn match_straddling_chunk_boundary_is_found() {
    // Half the pattern falls in one read, half in the next.
    let pattern = [10u8, 20, 30, 40, 50, 60];
    let at = 8192 - 3;
    let data = sample_data(20_000, &pattern, at);
    assert_eq!(scan_bytes_chunked(&data, &pattern, None, 8192), Ok(Some(at)));
    assert_eq!(scan_bytes(&data, &pattern, None), Ok(Some(at)));
}

#[test]
fn scan_limit_must_cover_whole_match() {
    let pattern = [4u8, 5, 6];
    let data = sample_data(1000, &pattern, 100);
    // The limit ends inside the occurrence: not a match.
    assert_eq!(scan_bytes(&data, &pattern, Some(102)), Ok(None));
    // The limit ends exactly at the occurrence's end: a match.
    assert_eq!(scan_bytes(&data, &pattern, Some(103)), Ok(Some(100)));
}

#[test]
fn buffer_size_grows_with_pattern() {
    assert_eq!(compute_buffer_size(0), 8192);
    assert_eq!(compute_buffer_size(1), 8192);
    assert_eq!(compute_buffer_size(2048), 8192);
    assert_eq!(compute_buffer_size(2049), 16384);
    assert_eq!(compute_buffer_size(4096), 16384);
    assert_eq!(compute_buffer_size(4097), 32768);
}

#[test]
fn feeding_chunks_by_hand_finds_straddled_match() {
    let pattern = [1u8, 2, 3, 4];
    let mut state = ScanState::new(&pattern, None).unwrap();
    assert!(!state.finished());
    state.feed(&[0, 0, 1, 2]);
    assert!(!state.finished());
    state.feed(&[3, 4, 0, 0]);
    assert!(state.finished());
    assert_eq!(state.found_offset(), Some(2));
}

#[test]
fn feeding_chunks_without_match_stays_unfinished() {
    let pattern = [9u8, 9];
    let mut state = ScanState::new(&pattern, None).unwrap();
    state.feed(&[1, 2, 3]);
    state.feed(&[4, 5, 6]);
    assert!(!state.finished());
}

#[test]
fn limit_hit_finishes_the_scan() {
    let pattern = [9u8, 9];
    let mut state = ScanState::new(&pattern, Some(4)).unwrap();
    state.feed(&[1, 2, 3, 4, 5]);
    assert!(state.finished());
    assert_eq!(state.found_offset(), None);
}
