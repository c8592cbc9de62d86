use git_whisper::error::GenerateError;
use git_whisper::stream::Assembler;

fn event_line(fragment: &str) -> String {
    format!(
        "{{\"model\":\"m\",\"message\":{{\"role\":\"assistant\",\"content\":{}}},\"done\":false}}\n",
        serde_json::to_string(fragment).unwrap()
    )
}

fn stream_of(fragments: &[&str]) -> Vec<u8> {
    let mut s = String::new();
    for f in fragments {
        s.push_str(&event_line(f));
    }
    s.into_bytes()
}

fn run_chunks(bytes: &[u8], size: usize) -> (String, usize, String) {
    let mut a = Assembler::new();
    let mut printed = String::new();
    for chunk in bytes.chunks(size) {
        printed.push_str(&a.feed(chunk).unwrap());
    }
    let done = a.finish().unwrap();
    printed.push_str(&done.tail);
    (done.raw_json, done.line_count, printed)
}

const DOC: &str = "{\n  \"commit_type\": \"feat\",\n  \"title\": \"Ajout de l’été ✓\",\n  \"changes\": [\"a\", \"b\"]\n}";

#[test]
fn concatenation_any_chunk_size() {
    let fragments = ["{\n  \"commit", "_type\": \"feat\",\n  \"title\": \"Ajout de l’", "été ✓\",\n  \"changes\": [\"a\", ", "\"b\"]\n}"];
    let bytes = stream_of(&fragments);
    for size in 1..=bytes.len() {
        let (raw, lines, printed) = run_chunks(&bytes, size);
        assert_eq!(raw, DOC);
        assert_eq!(printed, DOC);
        assert_eq!(lines, 4);
    }
}

#[test]
fn concatenation_one_char_per_fragment() {
    let fragments: Vec<String> = DOC.chars().map(|c| c.to_string()).collect();
    let refs: Vec<&str> = fragments.iter().map(|s| s.as_str()).collect();
    let bytes = stream_of(&refs);
    let (raw, lines, _) = run_chunks(&bytes, 7);
    assert_eq!(raw, DOC);
    assert_eq!(lines, DOC.matches('\n').count());
}

#[test]
fn line_count_matches_newlines_in_fragments() {
    let fragments = ["a\nb", "\n\n", "c", "d\n"];
    let bytes = stream_of(&fragments);
    for size in [1, 2, 5, 100] {
        let (raw, lines, _) = run_chunks(&bytes, size);
        assert_eq!(raw, "a\nb\n\ncd\n");
        assert_eq!(lines, 4);
    }
}

#[test]
fn lines_without_content_are_skipped() {
    let bytes = b"{\"done\":true}\n{\"message\":{\"role\":\"assistant\"}}\n{\"message\":{\"content\":\"x\"}}\n{\"message\":5}\n";
    let (raw, lines, _) = run_chunks(bytes, 3);
    assert_eq!(raw, "x");
    assert_eq!(lines, 0);
}

#[test]
fn unterminated_last_line_is_handled() {
    let bytes = b"{\"message\":{\"content\":\"ab\"}}\n{\"message\":{\"content\":\"cd\"}}";
    let (raw, _, printed) = run_chunks(bytes, 4);
    assert_eq!(raw, "abcd");
    assert_eq!(printed, "abcd");
}

#[test]
fn blank_remainder_is_ignored() {
    let bytes = b"{\"message\":{\"content\":\"ab\"}}\n  \t ";
    let (raw, _, _) = run_chunks(bytes, 5);
    assert_eq!(raw, "ab");
}

#[test]
fn malformed_line_is_fatal() {
    let mut bytes = b"{\"message\":{\"content\":\"ok\"}}\nnot json at all\n".to_vec();
    bytes.extend_from_slice(&stream_of(&["{\"title\":\"t\"}"]));
    let mut a = Assembler::new();
    assert_eq!(a.feed(&bytes), Err(GenerateError::MalformedEvent));
}

#[test]
fn malformed_line_fatal_across_chunks() {
    let bytes = b"{\"message\":{\"content\":\"ok\"}}\n{\"message\":\n{\"message\":{\"content\":\"more\"}}\n";
    let mut a = Assembler::new();
    let first = a.feed(&bytes[..10]);
    assert_eq!(first, Ok(String::new()));
    assert_eq!(a.feed(&bytes[10..]), Err(GenerateError::MalformedEvent));
}

#[test]
fn malformed_unterminated_last_line_is_fatal() {
    let mut a = Assembler::new();
    assert_eq!(a.feed(b"{\"message\":{\"content\":\"ok\"}}\n{\"mess"), Ok("ok".to_string()));
    assert!(matches!(a.finish(), Err(GenerateError::MalformedEvent)));
}

#[test]
fn invalid_utf8_is_substituted() {
    let mut bytes = b"{\"message\":{\"content\":\"a".to_vec();
    bytes.push(0xff);
    bytes.extend_from_slice(b"b\"}}\n");
    let (raw, _, _) = run_chunks(&bytes, 2);
    assert_eq!(raw, "a\u{fffd}b");
}

#[test]
fn progress_is_visible_between_chunks() {
    let mut a = Assembler::new();
    assert_eq!(a.feed(b"{\"message\":{\"content\":\"x\\ny\"}}\n{\"message\""), Ok("x\ny".to_string()));
    assert_eq!(a.raw_json(), "x\ny");
    assert_eq!(a.line_count(), 1);
}

#[test]
fn empty_stream_gives_empty_document() {
    let a = Assembler::new();
    let done = a.finish().unwrap();
    assert_eq!(done.raw_json, "");
    assert_eq!(done.line_count, 0);
    assert_eq!(done.tail, "");
}

#[test]
fn non_string_content_is_fatal() {
    let mut a = Assembler::new();
    assert_eq!(a.feed(b"{\"message\":{\"content\":5}}\n"), Err(GenerateError::MalformedEvent));
    let mut b = Assembler::new();
    assert_eq!(b.feed(b"{\"message\":{\"content\":null}}\n"), Err(GenerateError::MalformedEvent));
}

#[test]
fn failed_chunk_leaves_state_unchanged() {
    let mut a = Assembler::new();
    assert_eq!(a.feed(b"{\"message\":{\"content\":\"a\\nb\"}}\n{\"mes"), Ok("a\nb".to_string()));
    let r = a.feed(b"sage\":{\"content\":\"c\\n\"}}\n{oops}\n{\"message\":{\"content\":\"d\"}}\n");
    assert_eq!(r, Err(GenerateError::MalformedEvent));
    assert_eq!(a.raw_json(), "a\nb");
    assert_eq!(a.line_count(), 1);
}
