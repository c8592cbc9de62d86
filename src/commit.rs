use vstd::prelude::*;

use crate::text::{chars_of, is_blank, is_space, is_space_spec, lemma_trim_blank, text_of, trim_chars};

verus! {

/// The whitespace-separated words of `s`, as `str::split_whitespace` yields them.
pub open spec fn words(s: Seq<char>) -> Seq<Seq<char>>
    decreases s.len(),
{
    if s.len() == 0 {
        Seq::empty()
    } else {
        let w = words(s.drop_last());
        let c = s.last();
        if is_space_spec(c) {
            w
        } else if s.len() >= 2 && !is_space_spec(s[s.len() - 2]) {
            w.update(w.len() - 1, w.last().push(c))
        } else {
            w.push(seq![c])
        }
    }
}

/// A word of `words(s)` is never empty, and a non-space last character ends a word.
proof fn lemma_words_shape(s: Seq<char>)
    ensures
        forall|i: int| 0 <= i < words(s).len() ==> #[trigger] words(s)[i].len() > 0,
        s.len() > 0 && !is_space_spec(s.last()) ==> words(s).len() > 0,
    decreases s.len(),
{
    if s.len() > 0 {
        lemma_words_shape(s.drop_last());
        let t = s.drop_last();
        if s.len() >= 2 && !is_space_spec(s[s.len() - 2]) {
            assert(t.last() == s[s.len() - 2]);
        }
    }
}

/// The views of a vector of strings.
pub open spec fn strings_view(v: Seq<String>) -> Seq<Seq<char>> {
    v.map_values(|s: String| s@)
}

/// The views of a vector of character vectors.
pub open spec fn char_vecs_view(v: Seq<Vec<char>>) -> Seq<Seq<char>> {
    v.map_values(|s: Vec<char>| s@)
}

/// The words of `s`, each as a character vector.
fn words_exec(s: &Vec<char>) -> (r: Vec<Vec<char>>)
    ensures
        char_vecs_view(r@) == words(s@),
{
    let mut done: Vec<Vec<char>> = Vec::new();
    let mut cur: Vec<char> = Vec::new();
    let mut i: usize = 0;
    assert(s@.take(0) =~= Seq::<char>::empty());
    while i < s.len()
        invariant
            i <= s@.len(),
            cur@.len() == 0 ==> char_vecs_view(done@) == words(s@.take(i as int)),
            cur@.len() > 0 ==> char_vecs_view(done@).push(cur@) == words(s@.take(i as int)),
            cur@.len() > 0 ==> i > 0 && !is_space_spec(s@[i - 1]),
            cur@.len() == 0 ==> i == 0 || is_space_spec(s@[i - 1]),
        decreases s@.len() - i,
    {
        let c = s[i];
        let ghost t = s@.take(i + 1);
        assert(t.drop_last() =~= s@.take(i as int));
        assert(t.last() == c);
        proof {
            lemma_words_shape(s@.take(i as int));
        }
        if is_space(c) {
            if cur.len() > 0 {
                let mut w: Vec<char> = Vec::new();
                std::mem::swap(&mut w, &mut cur);
                let ghost before = char_vecs_view(done@);
                done.push(w);
                assert(char_vecs_view(done@) =~= before.push(w@));
            }
        } else {
            let ghost before = char_vecs_view(done@);
            let ghost old_cur = cur@;
            let ghost w = words(s@.take(i as int));
            if cur.len() > 0 {
                assert(t[t.len() - 2] == s@[i - 1]);
                assert(w == before.push(old_cur));
                assert(words(t) == w.update(w.len() - 1, w.last().push(c)));
                cur.push(c);
                assert(before.push(cur@) =~= words(t));
            } else {
                if i > 0 {
                    assert(t[t.len() - 2] == s@[i - 1]);
                }
                assert(words(t) == w.push(seq![c]));
                cur.push(c);
                assert(cur@ =~= seq![c]);
                assert(before.push(cur@) =~= words(t));
            }
        }
        i += 1;
    }
    assert(s@.take(s@.len() as int) =~= s@);
    if cur.len() > 0 {
        let ghost before = char_vecs_view(done@);
        done.push(cur);
        assert(char_vecs_view(done@) =~= before.push(cur@));
    }
    done
}

/// The command of an editor setting (its first word, `vi` where it has none) and its
/// arguments (the other words).
pub open spec fn command_of(s: Seq<char>) -> (Seq<char>, Seq<Seq<char>>) {
    let w = words(s);
    if w.len() == 0 {
        ("vi"@, Seq::empty())
    } else {
        (w[0], w.skip(1))
    }
}

/// An owned copy of a string.
pub(crate) fn owned(s: &str) -> (r: String)
    ensures
        r@ == s@,
{
    let v = chars_of(s);
    text_of(v.as_slice())
}

/// Splits an editor setting such as `code --wait` into its command and arguments.
pub fn split_cmd_and_args_owned(s: &str) -> (r: (String, Vec<String>))
    ensures
        (r.0@, strings_view(r.1@)) == command_of(s@),
{
    let chars = chars_of(s);
    let w = words_exec(&chars);
    let ghost wv = char_vecs_view(w@);
    if w.len() == 0 {
        proof {
            assert(strings_view(Seq::<String>::empty()) =~= Seq::<Seq<char>>::empty());
        }
        return (owned("vi"), Vec::new());
    }
    let cmd = text_of(w[0].as_slice());
    let mut args: Vec<String> = Vec::new();
    let mut i: usize = 1;
    while i < w.len()
        invariant
            1 <= i <= w@.len(),
            wv == char_vecs_view(w@),
            strings_view(args@) == wv.subrange(1, i as int),
        decreases w@.len() - i,
    {
        let a = text_of(w[i].as_slice());
        let ghost before = strings_view(args@);
        assert(wv[i as int] == w@[i as int]@);
        args.push(a);
        assert(strings_view(args@) =~= before.push(a@));
        assert(wv.subrange(1, i + 1) =~= wv.subrange(1, i as int).push(wv[i as int]));
        i += 1;
    }
    assert(wv.subrange(1, wv.len() as int) =~= wv.skip(1));
    (cmd, args)
}

/// The editor used where none is configured: `notepad` on Windows, `vi` elsewhere, with
/// no arguments.
pub fn default_editor(on_windows: bool) -> (r: (String, Vec<String>))
    ensures
        r.0@ == (if on_windows { "notepad"@ } else { "vi"@ }),
        r.1@.len() == 0,
{
    if on_windows {
        (owned("notepad"), Vec::new())
    } else {
        (owned("vi"), Vec::new())
    }
}

/// The editor command and arguments for a message edit: the configured editor setting
/// where it is present and not blank, else the platform's default.
pub fn editor_command(setting: Option<&str>, on_windows: bool) -> (r: (String, Vec<String>))
    ensures
        match setting {
            Some(e) if !is_blank(e@) => (r.0@, strings_view(r.1@)) == command_of(e@),
            _ => r.0@ == (if on_windows { "notepad"@ } else { "vi"@ }) && r.1@.len() == 0,
        },
{
    if let Some(e) = setting {
        let chars = chars_of(e);
        let trimmed = trim_chars(&chars);
        proof {
            lemma_trim_blank(e@);
        }
        if trimmed.len() > 0 {
            return split_cmd_and_args_owned(e);
        }
    }
    default_editor(on_windows)
}

/// The pieces of `s` between newline characters (one more than there are newlines).
pub open spec fn segments(s: Seq<char>) -> Seq<Seq<char>>
    decreases s.len(),
{
    if s.len() == 0 {
        seq![Seq::<char>::empty()]
    } else {
        let p = segments(s.drop_last());
        if s.last() == '\n' {
            p.push(Seq::empty())
        } else {
            p.update(p.len() - 1, p.last().push(s.last()))
        }
    }
}

proof fn lemma_segments_nonempty(s: Seq<char>)
    ensures
        segments(s).len() > 0,
    decreases s.len(),
{
    if s.len() > 0 {
        lemma_segments_nonempty(s.drop_last());
    }
}

/// A line ended by a newline, without a carriage return before that newline.
pub open spec fn strip_cr(line: Seq<char>) -> Seq<char> {
    if line.len() > 0 && line.last() == '\r' {
        line.drop_last()
    } else {
        line
    }
}

/// The lines of `s`, as `str::lines` yields them: split at each newline, a carriage return
/// before a newline dropped, and no empty line after a final newline.
pub open spec fn lines_of(s: Seq<char>) -> Seq<Seq<char>> {
    let p = segments(s);
    let ended = p.take(p.len() - 1).map_values(|l: Seq<char>| strip_cr(l));
    if p.last().len() > 0 {
        ended.push(p.last())
    } else {
        ended
    }
}

/// Lines joined with newlines between them.
pub open spec fn join_lines(ls: Seq<Seq<char>>) -> Seq<char>
    decreases ls.len(),
{
    if ls.len() == 0 {
        Seq::empty()
    } else if ls.len() == 1 {
        ls[0]
    } else {
        join_lines(ls.drop_last()) + seq!['\n'] + ls.last()
    }
}

/// The lines after the subject, without one leading blank line.
pub open spec fn body_lines(ls: Seq<Seq<char>>) -> Seq<Seq<char>> {
    let rest = if ls.len() > 0 { ls.skip(1) } else { ls };
    if rest.len() > 0 && is_blank(rest[0]) {
        rest.skip(1)
    } else {
        rest
    }
}

/// A commit message split for `git commit`: its subject, the first line trimmed, which must
/// not be empty; and its body, the lines after the subject and one blank separator line,
/// where that is not blank.
pub open spec fn commit_parts(msg: Seq<char>) -> Option<(Seq<char>, Option<Seq<char>>)> {
    let ls = lines_of(msg);
    let subject = if ls.len() > 0 { crate::text::trim(ls[0]) } else { Seq::empty() };
    let body = join_lines(body_lines(ls));
    if subject.len() == 0 {
        None
    } else if is_blank(body) {
        Some((subject, None))
    } else {
        Some((subject, Some(body)))
    }
}

/// The lines ended by a newline, among the segments `p`.
pub open spec fn ended_lines(p: Seq<Seq<char>>) -> Seq<Seq<char>> {
    p.take(p.len() - 1).map_values(|l: Seq<char>| strip_cr(l))
}

/// The lines of `s`, each as a character vector.
fn lines_exec(s: &Vec<char>) -> (r: Vec<Vec<char>>)
    ensures
        char_vecs_view(r@) == lines_of(s@),
{
    let mut done: Vec<Vec<char>> = Vec::new();
    let mut cur: Vec<char> = Vec::new();
    let mut i: usize = 0;
    assert(s@.take(0) =~= Seq::<char>::empty());
    assert(char_vecs_view(done@) =~= ended_lines(segments(Seq::<char>::empty())));
    while i < s.len()
        invariant
            i <= s@.len(),
            char_vecs_view(done@) == ended_lines(segments(s@.take(i as int))),
            cur@ == segments(s@.take(i as int)).last(),
        decreases s@.len() - i,
    {
        let c = s[i];
        let ghost t = s@.take(i + 1);
        let ghost p = segments(s@.take(i as int));
        assert(t.drop_last() =~= s@.take(i as int));
        proof {
            lemma_segments_nonempty(s@.take(i as int));
        }
        let ghost before = char_vecs_view(done@);
        if c == '\n' {
            let mut w: Vec<char> = Vec::new();
            std::mem::swap(&mut w, &mut cur);
            let n = w.len();
            if n > 0 && w[n - 1] == '\r' {
                w.pop();
            }
            assert(w@ == strip_cr(p.last()));
            done.push(w);
            assert(segments(t) == p.push(Seq::<char>::empty()));
            assert(char_vecs_view(done@) =~= before.push(w@));
            assert(ended_lines(segments(t)) =~= ended_lines(p).push(strip_cr(p.last())));
            assert(cur@ =~= segments(t).last());
        } else {
            cur.push(c);
            assert(segments(t) == p.update(p.len() - 1, p.last().push(c)));
            assert(ended_lines(segments(t)) =~= ended_lines(p));
        }
        i += 1;
    }
    assert(s@.take(s@.len() as int) =~= s@);
    if cur.len() > 0 {
        let ghost before = char_vecs_view(done@);
        done.push(cur);
        assert(char_vecs_view(done@) =~= before.push(cur@));
    }
    done
}

/// The views of a split commit message.
pub open spec fn parts_view(r: Option<(String, Option<String>)>) -> Option<(Seq<char>, Option<Seq<char>>)> {
    match r {
        Some((subject, body)) => Some((subject@, crate::stream::opt_view(body))),
        None => None,
    }
}

/// Splits a commit message into the subject and the optional body that `git commit` takes;
/// `None` where the subject line is empty.
pub fn split_commit_message(msg: &str) -> (r: Option<(String, Option<String>)>)
    ensures
        parts_view(r) == commit_parts(msg@),
{
    let chars = chars_of(msg);
    let ls = lines_exec(&chars);
    let ghost lv = char_vecs_view(ls@);
    if ls.len() == 0 {
        return None;
    }
    assert(lv[0] == ls@[0]@);
    let subject = trim_chars(&ls[0]);
    if subject.len() == 0 {
        return None;
    }
    let mut start: usize = 1;
    if start < ls.len() {
        let first = trim_chars(&ls[1]);
        proof {
            lemma_trim_blank(ls@[1]@);
            assert(lv[1] == ls@[1]@);
        }
        if first.len() == 0 {
            start = 2;
        }
    }
    assert(body_lines(lv) =~= lv.subrange(start as int, lv.len() as int)) by {
        assert(lv.skip(1) =~= lv.subrange(1, lv.len() as int));
        if lv.len() >= 2 {
            assert(lv.skip(1)[0] == lv[1]);
            assert(lv.skip(1).skip(1) =~= lv.subrange(2, lv.len() as int));
        }
    }
    let mut body: Vec<char> = Vec::new();
    let mut k: usize = start;
    assert(lv.subrange(start as int, start as int) =~= Seq::<Seq<char>>::empty());
    while k < ls.len()
        invariant
            start <= k <= ls@.len(),
            lv == char_vecs_view(ls@),
            body@ == join_lines(lv.subrange(start as int, k as int)),
        decreases ls@.len() - k,
    {
        let ghost before = lv.subrange(start as int, k as int);
        let ghost after = lv.subrange(start as int, k + 1);
        assert(after.drop_last() =~= before);
        assert(after.last() == ls@[k as int]@);
        if k > start {
            body.push('\n');
        } else {
            assert(after[0] == after.last());
        }
        crate::text::push_range(&mut body, &ls[k], 0, ls[k].len());
        assert(ls@[k as int]@.subrange(0, ls@[k as int]@.len() as int) =~= ls@[k as int]@);
        assert(body@ =~= join_lines(after));
        k += 1;
    }
    let trimmed = trim_chars(&body);
    proof {
        lemma_trim_blank(body@);
    }
    let subject_text = text_of(subject.as_slice());
    if trimmed.len() == 0 {
        Some((subject_text, None))
    } else {
        Some((subject_text, Some(text_of(body.as_slice()))))
    }
}

} // verus!
