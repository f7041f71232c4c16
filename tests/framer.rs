use fs_eventbridge::framer::LineFramer;

fn lines_of(chunks: &[&[u8]]) -> (Vec<Vec<u8>>, Vec<u8>) {
    let mut f = LineFramer::new();
    let mut out = Vec::new();
    for c in chunks {
        out.extend(f.feed(c));
    }
    (out, f.pending().clone())
}

fn expected(lines: &[&str]) -> Vec<Vec<u8>> {
    lines.iter().map(|l| l.as_bytes().to_vec()).collect()
}

#[test]
fn chunking_does_not_matter() {
    let stream: &[u8] = b"HELP\r\nCHANGE /tmp/a 5\nFROB x\rCHANGE /b\r\nrest";
    let whole = lines_of(&[stream]);
    assert_eq!(whole.0, expected(&["HELP", "CHANGE /tmp/a 5", "FROB x", "CHANGE /b"]));
    assert_eq!(whole.1, b"rest".to_vec());
    let bytes: Vec<&[u8]> = stream.chunks(1).collect();
    assert_eq!(lines_of(&bytes), whole);
    for k in 0..=stream.len() {
        let (a, b) = stream.split_at(k);
        assert_eq!(lines_of(&[a, b]), whole);
    }
    let threes: Vec<&[u8]> = stream.chunks(3).collect();
    assert_eq!(lines_of(&threes), whole);
}

#[test]
fn line_endings_are_interchangeable() {
    let want = expected(&["HELP", "CHANGE /x 1", "FROB"]);
    for s in [
        &b"HELP\nCHANGE /x 1\nFROB\n"[..],
        &b"HELP\rCHANGE /x 1\rFROB\r"[..],
        &b"HELP\r\nCHANGE /x 1\r\nFROB\r\n"[..],
        &b"HELP\rCHANGE /x 1\r\nFROB\n"[..],
    ] {
        let got = lines_of(&[s]);
        assert_eq!(got.0, want);
        assert!(got.1.is_empty());
    }
}

#[test]
fn crlf_split_across_chunks_is_one_ending() {
    let got = lines_of(&[b"HELP\r", b"\nFROB\n"]);
    assert_eq!(got.0, expected(&["HELP", "FROB"]));
}

#[test]
fn empty_lines_are_kept() {
    let got = lines_of(&[b"\n\nA\n"]);
    assert_eq!(got.0, expected(&["", "", "A"]));
}

#[test]
fn chunk_without_ending_only_accumulates() {
    let mut f = LineFramer::new();
    assert!(f.feed(b"CHAN").is_empty());
    assert!(f.feed(b"GE /x").is_empty());
    assert_eq!(f.pending(), &b"CHANGE /x".to_vec());
    assert_eq!(f.feed(b"\n"), vec![b"CHANGE /x".to_vec()]);
    assert!(f.pending().is_empty());
}

#[test]
fn connections_do_not_share_state() {
    let mut a = LineFramer::new();
    let mut b = LineFramer::new();
    assert!(a.feed(b"CHANGE /a").is_empty());
    assert!(b.feed(b"CHANGE /b 1").is_empty());
    assert_eq!(a.feed(b" 2\n"), vec![b"CHANGE /a 2".to_vec()]);
    assert_eq!(b.feed(b"\n"), vec![b"CHANGE /b 1".to_vec()]);
}

#[test]
fn new_connection_starts_empty() {
    let mut a = LineFramer::new();
    assert!(a.feed(b"CHANGE /half-a-line").is_empty());
    drop(a);
    let mut b = LineFramer::new();
    assert!(b.pending().is_empty());
    assert_eq!(b.feed(b"HELP\n"), vec![b"HELP".to_vec()]);
}
