use git_whisper::prompt::{compose_prompt, request_body, DEFAULT_PROMPT, SCHEMA};

const GUIDANCE: &str = "\n\nGuidance: reflect this intent in the title and bullets; do not just restate the diff.\n";

#[test]
fn both_markers_are_replaced() {
    let p = compose_prompt("D", Some("Why: {intent}\nWhat: {diff}\nAgain {diff}"), Some("H"));
    assert_eq!(p, "Why: H\nWhat: D\nAgain D");
    assert!(!p.contains("{diff}"));
    assert!(!p.contains("{intent}"));
}

#[test]
fn intent_marker_without_hint_becomes_empty() {
    let p = compose_prompt("D", Some("[{intent}] {diff}"), None);
    assert_eq!(p, "[] D");
}

#[test]
fn hint_is_appended_without_intent_marker() {
    let p = compose_prompt("D", Some("Diff: {diff}"), Some("  to fix the build \n"));
    assert_eq!(p, format!("Diff: D\n\nINTENT_HINT:\nto fix the build{GUIDANCE}"));
    assert!(p.ends_with(&format!("\n\nINTENT_HINT:\nto fix the build{GUIDANCE}")));
}

#[test]
fn blank_hint_is_not_appended() {
    let p = compose_prompt("D", Some("Diff: {diff}"), Some(" \t\n"));
    assert_eq!(p, "Diff: D");
}

#[test]
fn diff_is_appended_without_diff_marker() {
    let p = compose_prompt("the diff", Some("Write a message."), None);
    assert_eq!(p, "Write a message.\n\nDIFF:\nthe diff");
}

#[test]
fn appended_diff_then_hint() {
    let p = compose_prompt("X", Some("T"), Some("H"));
    assert_eq!(p, format!("T\n\nDIFF:\nX\n\nINTENT_HINT:\nH{GUIDANCE}"));
}

#[test]
fn default_template_is_used() {
    let p = compose_prompt("DIFFTEXT", None, Some("HINTTEXT"));
    let expected = DEFAULT_PROMPT.replace("{intent}", "HINTTEXT").replace("{diff}", "DIFFTEXT");
    assert_eq!(p, expected);
    assert!(p.contains("INTENT_HINT (optional, may be empty):\nHINTTEXT\n"));
    assert!(p.ends_with("DIFF:\nDIFFTEXT\n"));
}

#[test]
fn diff_containing_marker_text_is_kept() {
    let p = compose_prompt("a {intent} b", Some("{diff}"), Some("H"));
    assert_eq!(p, format!("a {{intent}} b\n\nINTENT_HINT:\nH{GUIDANCE}"));
}

#[test]
fn marker_formed_by_diff_is_not_replaced() {
    let p = compose_prompt("ent}", Some("{int{diff}"), Some("H"));
    assert_eq!(p, format!("{{intent}}\n\nINTENT_HINT:\nH{GUIDANCE}"));
}

#[test]
fn hint_is_not_searched_for_markers() {
    let p = compose_prompt("D", Some("{intent} / {diff}"), Some("{diff}"));
    assert_eq!(p, "{diff} / D");
}

#[test]
fn request_body_is_exact_json() {
    let body = request_body("llama3", "say \"hi\"\n");
    let expected = format!(
        "{{\"model\":\"llama3\",\"messages\":[{{\"role\":\"user\",\"content\":\"say \\\"hi\\\"\\n\"}}],\"stream\":true,\"format\":{SCHEMA}}}"
    );
    assert_eq!(body, expected);
    let v: serde_json::Value = serde_json::from_str(&body).unwrap();
    assert_eq!(v["messages"][0]["content"], "say \"hi\"\n");
    assert_eq!(v["stream"], true);
    assert_eq!(v["format"]["required"][1], "title");
    assert_eq!(v["format"]["properties"]["commit_type"]["enum"].as_array().unwrap().len(), 10);
}

#[test]
fn empty_diff_can_join_marker_halves() {
    let p = compose_prompt("", Some("{di{diff}ff} {intent}"), Some("H"));
    assert_eq!(p, "{diff} H");
}

#[test]
fn request_body_escapes_control_characters() {
    let body = request_body("m", "\u{1}\u{1f}\u{8}\u{c}\t\r\\\u{7f}é/");
    let expected = format!(
        "{{\"model\":\"m\",\"messages\":[{{\"role\":\"user\",\"content\":\"\\u0001\\u001f\\b\\f\\t\\r\\\\\u{7f}é/\"}}],\"stream\":true,\"format\":{SCHEMA}}}"
    );
    assert_eq!(body, expected);
}
