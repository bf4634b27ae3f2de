use crw::body::{read_capped, CappedBody, Taken};

fn stream_of(chunks: &[&'static [u8]]) -> Vec<Result<Vec<u8>, String>> {
    chunks.iter().map(|chunk| Ok(chunk.to_vec())).collect()
}

#[test]
fn collects_a_whole_body_under_the_cap() {
    let (body, truncated) = read_capped(stream_of(&[b"ab", b"cd"]), 16).unwrap();
    assert_eq!(body, b"abcd");
    assert!(!truncated);
}

/// The boundary is inclusive: a body of exactly `max` is complete, not truncated.
#[test]
fn a_body_of_exactly_the_cap_is_not_truncated() {
    let (body, truncated) = read_capped(stream_of(&[b"abcd"]), 4).unwrap();
    assert_eq!(body, b"abcd");
    assert!(!truncated);
}

#[test]
fn stops_at_the_cap_and_reports_truncation() {
    let (body, truncated) = read_capped(stream_of(&[b"abc", b"de"]), 4).unwrap();
    assert_eq!(
        body, b"abcd",
        "the prefix is kept, one chunk is not buffered whole"
    );
    assert!(truncated);
}

#[test]
fn an_empty_stream_is_not_an_error() {
    let (body, truncated) = read_capped(stream_of(&[]), 0).unwrap();
    assert!(body.is_empty());
    assert!(!truncated);
}

#[test]
fn the_stream_error_comes_back_untouched() {
    let s = vec![Ok(b"ab".to_vec()), Err("boom".to_string())];
    assert_eq!(read_capped(s, 16).unwrap_err(), "boom");
}

#[test]
fn nothing_counts_past_the_cap() {
    let s = vec![Ok(b"abcde".to_vec()), Err("boom".to_string())];
    assert_eq!(read_capped(s, 4).unwrap(), (b"abcd".to_vec(), true));
    let s = vec![Ok(b"abcd".to_vec()), Err("boom".to_string())];
    assert_eq!(read_capped(s, 4).unwrap_err(), "boom");
}

#[test]
fn chunking_is_invisible() {
    for max in 0..7 {
        let whole = read_capped(stream_of(&[b"abcde"]), max).unwrap();
        let pieces = read_capped(stream_of(&[b"", b"a", b"bcd", b"", b"e"]), max).unwrap();
        assert_eq!(whole, pieces);
        assert_eq!(whole.1, max < 5);
        assert_eq!(whole.0.len(), max.min(5));
    }
}

#[test]
fn chunks_are_taken_one_by_one() {
    let body = CappedBody::new(3);
    let Taken::More(body) = body.take(b"ab") else {
        panic!("there is room");
    };
    let Taken::More(body) = body.take(b"c") else {
        panic!("just filled");
    };
    match body.take(b"d") {
        Taken::Full(bytes) => assert_eq!(bytes, b"abc"),
        Taken::More(_) => panic!("over the cap"),
    }
    assert_eq!(CappedBody::new(3).finish(), b"");
}
