use git_whisper::commit::{default_editor, editor_command, split_cmd_and_args_owned, split_commit_message};

#[test]
fn split_editor_setting() {
    let (cmd, args) = split_cmd_and_args_owned("code --wait");
    assert_eq!(cmd, "code");
    assert_eq!(args, vec!["--wait".to_string()]);
}

#[test]
fn split_editor_setting_extra_space() {
    let (cmd, args) = split_cmd_and_args_owned("  emacs\t-nw   -q \n");
    assert_eq!(cmd, "emacs");
    assert_eq!(args, vec!["-nw".to_string(), "-q".to_string()]);
}

#[test]
fn split_blank_editor_setting() {
    let (cmd, args) = split_cmd_and_args_owned("   ");
    assert_eq!(cmd, "vi");
    assert!(args.is_empty());
}

#[test]
fn default_editor_by_platform() {
    assert_eq!(default_editor(false), ("vi".to_string(), vec![]));
    assert_eq!(default_editor(true), ("notepad".to_string(), vec![]));
}

#[test]
fn editor_command_choice() {
    assert_eq!(editor_command(Some("nano -w"), false), ("nano".to_string(), vec!["-w".to_string()]));
    assert_eq!(editor_command(Some("  "), true), ("notepad".to_string(), vec![]));
    assert_eq!(editor_command(None, false), ("vi".to_string(), vec![]));
}

#[test]
fn commit_subject_and_body() {
    let r = split_commit_message("feat: Add X\n\n- Add X to support Y\n- Update Z\n");
    assert_eq!(r, Some(("feat: Add X".to_string(), Some("- Add X to support Y\n- Update Z".to_string()))));
}

#[test]
fn commit_subject_only() {
    assert_eq!(split_commit_message("  fix: y  \n\n"), Some(("fix: y".to_string(), None)));
    assert_eq!(split_commit_message("fix: y"), Some(("fix: y".to_string(), None)));
}

#[test]
fn commit_body_without_separator() {
    let r = split_commit_message("s\r\nbody 1\r\n\r\nbody 2");
    assert_eq!(r, Some(("s".to_string(), Some("body 1\n\nbody 2".to_string()))));
}

#[test]
fn commit_empty_subject_is_refused() {
    assert_eq!(split_commit_message(""), None);
    assert_eq!(split_commit_message("   \nbody"), None);
}
