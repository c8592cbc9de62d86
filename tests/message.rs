use git_whisper::error::{Field, GenerateError};
use git_whisper::message::{is_category_exec, parse_message, CommitMessage};

fn message(kind: &str, title: &str, changes: &[&str]) -> CommitMessage {
    CommitMessage {
        commit_type: kind.to_string(),
        title: title.to_string(),
        changes: changes.iter().map(|c| c.to_string()).collect(),
    }
}

#[test]
fn render_round_trip() {
    let m = message("feat", "Add X", &["Add X to support Y", "- Update Z"]);
    assert_eq!(m.render(), "feat: Add X\n\n- Add X to support Y\n- Update Z\n");
}

#[test]
fn render_trims_and_strips_repeated_markers() {
    let m = message("fix", "  Keep  ", &["- - nested  ", "  spaced\t", "-no space"]);
    assert_eq!(m.render(), "fix: Keep\n\n- nested\n- spaced\n- -no space\n");
}

#[test]
fn render_without_changes() {
    let m = message("docs", "Explain", &[]);
    assert_eq!(m.render(), "docs: Explain\n\n");
}

#[test]
fn parse_then_render() {
    let raw = "  \n{\"commit_type\":\"feat\",\"title\":\"Add X\",\"changes\":[\"Add X to support Y\",\"- Update Z\"],\"extra\":1}\n ";
    let m = parse_message(raw).unwrap();
    assert_eq!(m.commit_type, "feat");
    assert_eq!(m.title, "Add X");
    assert_eq!(m.changes, vec!["Add X to support Y".to_string(), "- Update Z".to_string()]);
    assert_eq!(m.render(), "feat: Add X\n\n- Add X to support Y\n- Update Z\n");
}

#[test]
fn missing_changes_is_rejected() {
    assert!(matches!(parse_message("{\"title\": \"x\"}"), Err(GenerateError::BadField(_))));
    assert!(matches!(
        parse_message("{\"commit_type\": \"fix\", \"title\": \"x\"}"),
        Err(GenerateError::BadField(Field::Changes))
    ));
}

#[test]
fn missing_category_is_rejected() {
    assert!(matches!(
        parse_message("{\"title\": \"x\", \"changes\": []}"),
        Err(GenerateError::BadField(Field::Category))
    ));
}

#[test]
fn missing_title_is_rejected() {
    assert!(matches!(
        parse_message("{\"commit_type\": \"fix\", \"changes\": []}"),
        Err(GenerateError::BadField(Field::Title))
    ));
}

#[test]
fn non_text_change_is_rejected() {
    assert!(matches!(
        parse_message("{\"commit_type\": \"fix\", \"title\": \"x\", \"changes\": [\"a\", 3]}"),
        Err(GenerateError::BadField(Field::Changes))
    ));
}

#[test]
fn unknown_category_is_rejected() {
    assert!(matches!(
        parse_message("{\"commit_type\": \"feature\", \"title\": \"x\", \"changes\": []}"),
        Err(GenerateError::UnknownCategory)
    ));
}

#[test]
fn invalid_document_is_rejected() {
    assert!(matches!(parse_message("{\"commit_type\": \"fix\""), Err(GenerateError::MalformedDocument)));
    assert!(matches!(parse_message(""), Err(GenerateError::MalformedDocument)));
}

#[test]
fn empty_changes_are_valid() {
    let m = parse_message("{\"commit_type\":\"ci\",\"title\":\"t\",\"changes\":[]}").unwrap();
    assert_eq!(m.render(), "ci: t\n\n");
}

#[test]
fn categories_are_the_closed_set() {
    for k in ["fix", "feat", "docs", "style", "refactor", "perf", "test", "build", "ci", "chore"] {
        assert!(is_category_exec(&k.chars().collect()));
    }
    for k in ["", "Fix", "feat ", "features", "c"] {
        assert!(!is_category_exec(&k.chars().collect()));
    }
}
