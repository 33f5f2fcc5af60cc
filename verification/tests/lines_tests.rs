use alas_launcher::lines::LineReconstructor;

fn feed_all(chunks: &[&[u8]]) -> Vec<String> {
    let mut rec = LineReconstructor::new();
    let mut lines = Vec::new();
    for chunk in chunks {
        lines.extend(rec.push_chunk(chunk));
    }
    if let Some(last) = rec.finish() {
        lines.push(last);
    }
    lines
}

#[test]
fn newline_terminated_lines() {
    let lines = feed_all(&[b"hello\nworld\n"]);
    assert_eq!(lines, vec!["hello".to_string(), "world".to_string()]);
}

#[test]
fn carriage_returns_flush_like_newlines() {
    let lines = feed_all(&[b"a\rb\r\nc"]);
    assert_eq!(lines, vec!["a".to_string(), "b".to_string(), "c".to_string()]);
}

#[test]
fn empty_flushes_are_skipped() {
    let lines = feed_all(&[b"\n\n\nx\n\n"]);
    assert_eq!(lines, vec!["x".to_string()]);
}

#[test]
fn chunk_boundaries_do_not_matter() {
    let whole = feed_all(&[b"alpha\nbeta: 10%\rgamma\n"]);
    let split = feed_all(&[b"alp", b"ha\nbe", b"ta: 1", b"0%\rgam", b"ma\n"]);
    let bytewise: Vec<&[u8]> =
        b"alpha\nbeta: 10%\rgamma\n".iter().map(std::slice::from_ref).collect();
    let single = feed_all(&bytewise);
    assert_eq!(whole, split);
    assert_eq!(whole, single);
}

#[test]
fn label_label_run_is_collapsed_at_colon() {
    // A redrawn progress meter reuses its label without a newline between
    // redraws; the second colon cuts the buffer just past the repeated label.
    let lines = feed_all(&[b"Receiving objects: 10% Receiving objects: 20%\n"]);
    assert_eq!(
        lines,
        vec!["Receiving objects: 10% ".to_string(), "Receiving objects: 20%".to_string()]
    );
}

#[test]
fn lone_colons_accumulate() {
    let lines = feed_all(&[b"a:b\n"]);
    assert_eq!(lines, vec!["a:b".to_string()]);
}

#[test]
fn unterminated_tail_is_flushed_at_end() {
    let lines = feed_all(&[b"partial"]);
    assert_eq!(lines, vec!["partial".to_string()]);
}

#[test]
fn high_bytes_terminate_lines() {
    let lines = feed_all(&[b"ok\xc3\xa9ok\n"]);
    assert_eq!(lines, vec!["ok".to_string(), "ok".to_string()]);
}
