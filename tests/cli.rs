use git_whisper::cli::{interpret_reply, parse_args, reply_for, CliRequest, Reply};

fn args(list: &[&str]) -> Vec<String> {
    list.iter().map(|s| s.to_string()).collect()
}

#[test]
fn no_arguments_runs_without_hint() {
    assert_eq!(parse_args(&args(&[])), CliRequest::Run(None));
}

#[test]
fn intent_as_next_argument() {
    assert_eq!(parse_args(&args(&["--intent", "make CI pass"])), CliRequest::Run(Some("make CI pass".to_string())));
}

#[test]
fn intent_in_same_argument() {
    assert_eq!(parse_args(&args(&["--intent=speed up", "other"])), CliRequest::Run(Some("speed up".to_string())));
    assert_eq!(parse_args(&args(&["--intent="])), CliRequest::Run(Some(String::new())));
}

#[test]
fn last_intent_wins() {
    assert_eq!(parse_args(&args(&["--intent", "a", "--intent=b"])), CliRequest::Run(Some("b".to_string())));
}

#[test]
fn intent_without_value() {
    assert_eq!(parse_args(&args(&["--intent"])), CliRequest::MissingIntentValue);
}

#[test]
fn help_flags() {
    assert_eq!(parse_args(&args(&["-h"])), CliRequest::Help);
    assert_eq!(parse_args(&args(&["x", "--help", "--intent"])), CliRequest::Help);
    assert_eq!(parse_args(&args(&["--intent", "-h"])), CliRequest::Run(Some("-h".to_string())));
}

#[test]
fn replies() {
    assert_eq!(interpret_reply("\n"), Reply::Accept);
    assert_eq!(interpret_reply(" Y \n"), Reply::Accept);
    assert_eq!(interpret_reply("n\n"), Reply::Reject);
    assert_eq!(interpret_reply("E"), Reply::Edit);
    assert_eq!(interpret_reply("yes"), Reply::Invalid);
    assert_eq!(reply_for("y"), Reply::Accept);
    assert_eq!(reply_for("Y"), Reply::Invalid);
}
