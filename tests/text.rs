use git_whisper::text::{contains_exec, count_newlines, is_space, replace_two_exec, trim_chars};

fn chars(s: &str) -> Vec<char> {
    s.chars().collect()
}

#[test]
fn space_matches_std_for_every_char() {
    for u in 0..=0x10FFFFu32 {
        if let Some(c) = char::from_u32(u) {
            assert_eq!(is_space(c), c.is_whitespace(), "U+{u:04X}");
        }
    }
}

#[test]
fn trim_matches_std() {
    for s in ["", "   ", " a b ", "\u{a0}x\u{3000}", "\t\n y\r\n", "z"] {
        let t: String = trim_chars(&chars(s)).into_iter().collect();
        assert_eq!(t, s.trim());
    }
}

#[test]
fn replace_matches_std() {
    for (s, p, r) in [("aaa", "aa", "b"), ("{diff}{diff}", "{diff}", "D"), ("x", "yy", "z"), ("ééé", "é", "")] {
        let out: String = replace_two_exec(&chars(s), &chars(p), &chars(r), &chars("\u{0}\u{0}"), &chars("?"))
            .into_iter()
            .collect();
        assert_eq!(out, s.replace(p, r));
        assert_eq!(contains_exec(&chars(s), &chars(p)), s.contains(p));
    }
}

#[test]
fn newline_count() {
    assert_eq!(count_newlines(&chars("a\nb\n\nc")), 3);
    assert_eq!(count_newlines(&chars("")), 0);
}

#[test]
fn replace_two_is_one_pass() {
    let out: String = replace_two_exec(&chars("<a><b>"), &chars("<a>"), &chars("<b>"), &chars("<b>"), &chars("B"))
        .into_iter()
        .collect();
    assert_eq!(out, "<b>B");
}
