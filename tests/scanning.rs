use chunkscan::pattern::{parse_args, Pattern, UsageError};
use chunkscan::scanner::{buffer_len_for, scan_bytes, ChunkScanner, ScanStep, MIN_BUFFER_LEN};

fn pat(s: &str) -> Pattern {
    Pattern::new(s.as_bytes().to_vec()).unwrap()
}

fn feed_all(p: &Pattern, data: &[u8], chunk_len: usize) -> bool {
    let mut scanner = ChunkScanner::new(p);
    let mut pos = 0;
    loop {
        let n = chunk_len.min(scanner.room()).min(data.len() - pos);
        match scanner.feed(p, &data[pos..pos + n]) {
            ScanStep::Matched => return true,
            ScanStep::Exhausted => return false,
            ScanStep::NeedMore => pos += n,
        }
    }
}

#[test]
fn match_straddling_first_chunk_boundary() {
    let mut data = vec![b'x'; 8190];
    data.extend_from_slice(b"abcd");
    data.extend(vec![b'y'; 100]);
    assert!(scan_bytes(&pat("abcd"), &data));
}

#[test]
fn match_straddling_boundary_at_every_split() {
    let p = pat("abcd");
    for k in 1..4 {
        let mut data = vec![b'.'; MIN_BUFFER_LEN - k];
        data.extend_from_slice(b"abcd");
        data.extend(vec![b'.'; 50]);
        assert!(scan_bytes(&p, &data), "split {k}");
    }
}

#[test]
fn match_straddling_second_chunk_boundary() {
    // The second chunk ends 8192 - 3 bytes later than the first.
    let first_end = MIN_BUFFER_LEN;
    let second_end = first_end + (MIN_BUFFER_LEN - 3);
    let mut data = vec![b'-'; second_end - 2];
    data.extend_from_slice(b"abcd");
    data.extend(vec![b'-'; 10]);
    assert!(scan_bytes(&pat("abcd"), &data));
}

#[test]
fn no_false_positive_short_equal_and_large() {
    let p = pat("needle");
    let short = b"needl eedle? no: neeedle, needl".to_vec();
    assert!(!scan_bytes(&p, &short));
    let equal = vec![b'n'; MIN_BUFFER_LEN];
    assert!(!scan_bytes(&p, &equal));
    let mut large = Vec::new();
    while large.len() < 10 * MIN_BUFFER_LEN {
        large.extend_from_slice(b"needl");
    }
    assert!(!scan_bytes(&p, &large));
}

#[test]
fn match_at_very_end_of_large_input() {
    let mut data = vec![b'a'; 5 * MIN_BUFFER_LEN + 17];
    data.extend_from_slice(b"needle");
    assert!(scan_bytes(&pat("needle"), &data));
}

#[test]
fn empty_input_has_no_match() {
    assert!(!scan_bytes(&pat("a"), &[]));
    let p = pat("abc");
    let mut scanner = ChunkScanner::new(&p);
    assert_eq!(scanner.feed(&p, &[]), ScanStep::Exhausted);
}

#[test]
fn pattern_longer_than_input() {
    assert!(!scan_bytes(&pat("0123456789"), b"012"));
}

#[test]
fn small_chunks_find_split_matches() {
    let p = pat("hello");
    let data = b"say hello world";
    for chunk_len in 1..6 {
        assert!(feed_all(&p, data, chunk_len), "chunk {chunk_len}");
        assert!(!feed_all(&p, b"say hell o world", chunk_len));
    }
}

#[test]
fn scanner_stays_matched_once_found() {
    let p = pat("ab");
    let mut scanner = ChunkScanner::new(&p);
    assert_eq!(scanner.feed(&p, b"xa"), ScanStep::NeedMore);
    assert_eq!(scanner.feed(&p, b"bx"), ScanStep::Matched);
    assert_eq!(scanner.feed(&p, b""), ScanStep::Matched);
}

#[test]
fn pattern_as_long_as_buffer_minus_one() {
    let long = vec![b'q'; MIN_BUFFER_LEN + 10];
    let p = Pattern::new(long.clone()).unwrap();
    let mut scanner = ChunkScanner::new(&p);
    assert_eq!(scanner.room(), MIN_BUFFER_LEN + 11);
    let mut data = vec![b'z'; 3];
    data.extend_from_slice(&long);
    assert!(scan_bytes(&p, &data));
    assert!(!scan_bytes(&p, &long[1..]));
}

#[test]
fn buffer_capacity_formula() {
    assert_eq!(buffer_len_for(1), 8192);
    assert_eq!(buffer_len_for(8191), 8192);
    assert_eq!(buffer_len_for(8192), 8193);
    assert_eq!(buffer_len_for(10000), 10001);
}

#[test]
fn room_after_carry_is_capacity_minus_tail() {
    let p = pat("abcd");
    let mut scanner = ChunkScanner::new(&p);
    assert_eq!(scanner.room(), 8192);
    assert_eq!(scanner.feed(&p, b"zz"), ScanStep::NeedMore);
    assert_eq!(scanner.room(), 8190);
    assert_eq!(scanner.feed(&p, b"zzzzzz"), ScanStep::NeedMore);
    assert_eq!(scanner.room(), 8189);
}

#[test]
fn pattern_rejects_empty() {
    assert!(matches!(Pattern::new(Vec::new()), Err(UsageError::EmptyPattern)));
    let p = Pattern::new(b"hi".to_vec()).unwrap();
    assert_eq!(p.as_bytes(), b"hi");
    assert_eq!(p.len(), 2);
}

#[test]
fn args_need_root_and_pattern() {
    assert!(matches!(parse_args(1, Some(b"x".to_vec())), Err(UsageError::WrongArgCount(1))));
    assert!(matches!(parse_args(3, Some(b"x".to_vec())), Err(UsageError::WrongArgCount(3))));
    assert!(matches!(parse_args(2, None), Err(UsageError::NonUtf8Pattern)));
    assert!(matches!(parse_args(2, Some(Vec::new())), Err(UsageError::EmptyPattern)));
    let p = parse_args(2, Some(b"hello".to_vec())).unwrap();
    assert_eq!(p.as_bytes(), b"hello");
}

#[test]
fn rescanning_gives_same_verdict() {
    let p = pat("abcd");
    let mut data = vec![b'x'; 8190];
    data.extend_from_slice(b"abcd");
    let first = scan_bytes(&p, &data);
    let second = scan_bytes(&p, &data);
    assert_eq!(first, second);
    assert_eq!(feed_all(&p, &data, 1000), first);
}
