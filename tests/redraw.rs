use git_whisper::redraw::{clear_actions, clear_sequence, TermOp};

#[test]
fn clear_zero_lines_clears_current_line() {
    assert_eq!(clear_sequence(0), "\r\x1b[2K\r");
    assert_eq!(clear_actions(0), vec![TermOp::LineStart, TermOp::ClearLine, TermOp::LineStart]);
}

#[test]
fn clear_two_lines() {
    assert_eq!(clear_sequence(2), "\r\x1b[2K\x1b[1A\x1b[2K\x1b[1A\x1b[2K\r");
}

#[test]
fn clears_n_plus_one_lines() {
    for n in 0..20usize {
        let s = clear_sequence(n);
        assert_eq!(s.matches("\x1b[2K").count(), n + 1);
        assert_eq!(s.matches("\x1b[1A").count(), n);
        let ops = clear_actions(n);
        assert_eq!(ops.iter().filter(|o| **o == TermOp::ClearLine).count(), n + 1);
        assert_eq!(ops.iter().filter(|o| **o == TermOp::Up).count(), n);
    }
}
