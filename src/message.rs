use vstd::prelude::*;

use crate::error::{Field, GenerateError};
use crate::stream::opt_view;
use crate::text::{chars_of, push_range, text_of, trim, trim_chars};

verus! {

/// The fields that `serde_json::from_str` finds in a document parsed as a `serde_json::Value`:
/// `None` where it is not valid JSON; otherwise the strings at `commit_type` and `title`, and
/// at `changes` the array with each item's string, each `None` where absent or not a string.
pub uninterp spec fn record_fields(text: Seq<char>) -> Option<
    (Option<Seq<char>>, Option<Seq<char>>, Option<Seq<Option<Seq<char>>>>),
>;

/// The characters of an optional list of optional strings.
pub open spec fn opt_list_view(o: Option<Vec<Option<String>>>) -> Option<Seq<Option<Seq<char>>>> {
    match o {
        Some(v) => Some(v@.map_values(|x: Option<String>| opt_view(x))),
        None => None,
    }
}

/// Relies on `serde_json::from_str` into a `serde_json::Value`, then reads the string fields
/// `commit_type` and `title` and the array `changes`.
#[verifier::external_body]
fn read_record(text: &str) -> (r: Result<
    (Option<String>, Option<String>, Option<Vec<Option<String>>>),
    serde_json::Error,
>)
    ensures
        r is Ok <==> record_fields(text@) is Some,
        r matches Ok((c, t, ch)) ==> record_fields(text@) == Some(
            (opt_view(c), opt_view(t), opt_list_view(ch)),
        ),
{
    let text_field = |v: &serde_json::Value| v.as_str().map(|s| s.to_string());
    serde_json::from_str::<serde_json::Value>(text).map(
        |v| (
            v.get("commit_type").and_then(text_field),
            v.get("title").and_then(text_field),
            v.get("changes").and_then(|c| c.as_array()).map(
                |a| a.iter().map(text_field).collect(),
            ),
        ),
    )
}

/// The kinds of commit that a message may declare.
pub open spec fn is_category(c: Seq<char>) -> bool {
    c == seq!['f', 'i', 'x'] || c == seq!['f', 'e', 'a', 't'] || c == seq!['d', 'o', 'c', 's']
        || c == seq!['s', 't', 'y', 'l', 'e'] || c == seq!['r', 'e', 'f', 'a', 'c', 't', 'o', 'r']
        || c == seq!['p', 'e', 'r', 'f'] || c == seq!['t', 'e', 's', 't'] || c == seq![
        'b',
        'u',
        'i',
        'l',
        'd',
    ] || c == seq!['c', 'i'] || c == seq!['c', 'h', 'o', 'r', 'e']
}

/// A decoded commit message: category, title and the list of changes.
pub type MessageView = (Seq<char>, Seq<char>, Seq<Seq<char>>);

/// Whether every item of the list is a string.
pub open spec fn all_texts(s: Seq<Option<Seq<char>>>) -> bool {
    forall|i: int| 0 <= i < s.len() ==> s[i] is Some
}

/// The strings of a list whose items are all strings.
pub open spec fn texts(s: Seq<Option<Seq<char>>>) -> Seq<Seq<char>> {
    s.map_values(|o: Option<Seq<char>>| o->0)
}

/// The record that the model's output decodes to, or why it does not.
pub open spec fn decode_message(raw: Seq<char>) -> Result<MessageView, GenerateError> {
    match record_fields(trim(raw)) {
        None => Err(GenerateError::MalformedDocument),
        Some((c, t, ch)) => if c is None {
            Err(GenerateError::BadField(Field::Category))
        } else if t is None {
            Err(GenerateError::BadField(Field::Title))
        } else if ch is None || !all_texts(ch->0) {
            Err(GenerateError::BadField(Field::Changes))
        } else if !is_category(c->0) {
            Err(GenerateError::UnknownCategory)
        } else {
            Ok((c->0, t->0, texts(ch->0)))
        },
    }
}

/// `s` without any number of leading `"- "` markers.
pub open spec fn strip_bullets(s: Seq<char>) -> Seq<char>
    decreases s.len(),
{
    if s.len() >= 2 && s[0] == '-' && s[1] == ' ' {
        strip_bullets(s.skip(2))
    } else {
        s
    }
}

/// One change as a bullet line.
pub open spec fn bullet(change: Seq<char>) -> Seq<char> {
    seq!['-', ' '] + trim(strip_bullets(change)) + seq!['\n']
}

/// The bullet lines of all changes, in order.
pub open spec fn bullets(changes: Seq<Seq<char>>) -> Seq<char>
    decreases changes.len(),
{
    if changes.len() == 0 {
        Seq::empty()
    } else {
        bullets(changes.drop_last()) + bullet(changes.last())
    }
}

/// The rendered message: `category: title`, a blank line, then one bullet per change.
pub open spec fn rendered(m: MessageView) -> Seq<char> {
    m.0 + seq![':', ' '] + trim(m.1) + seq!['\n', '\n'] + bullets(m.2)
}

/// The record that the model's output decodes to.
#[derive(Debug)]
pub struct CommitMessage {
    pub commit_type: String,
    pub title: String,
    pub changes: Vec<String>,
}

impl View for CommitMessage {
    type V = MessageView;

    open spec fn view(&self) -> MessageView {
        (self.commit_type@, self.title@, self.changes@.map_values(|s: String| s@))
    }
}

/// Whether `s` is one of the kinds of commit.
pub fn is_category_exec(s: &Vec<char>) -> (r: bool)
    ensures
        r == is_category(s@),
{
    let kinds: [&str; 10] = ["fix", "feat", "docs", "style", "refactor", "perf", "test", "build", "ci", "chore"];
    let ghost want = seq![
        seq!['f', 'i', 'x'],
        seq!['f', 'e', 'a', 't'],
        seq!['d', 'o', 'c', 's'],
        seq!['s', 't', 'y', 'l', 'e'],
        seq!['r', 'e', 'f', 'a', 'c', 't', 'o', 'r'],
        seq!['p', 'e', 'r', 'f'],
        seq!['t', 'e', 's', 't'],
        seq!['b', 'u', 'i', 'l', 'd'],
        seq!['c', 'i'],
        seq!['c', 'h', 'o', 'r', 'e'],
    ];
    proof {
        reveal_strlit("fix");
        reveal_strlit("feat");
        reveal_strlit("docs");
        reveal_strlit("style");
        reveal_strlit("refactor");
        reveal_strlit("perf");
        reveal_strlit("test");
        reveal_strlit("build");
        reveal_strlit("ci");
        reveal_strlit("chore");
        assert(forall|k: int| 0 <= k < 10 ==> kinds@[k]@ =~= #[trigger] want[k]);
        assert(is_category(want[0]) && is_category(want[1]) && is_category(want[2]));
        assert(is_category(want[3]) && is_category(want[4]) && is_category(want[5]));
        assert(is_category(want[6]) && is_category(want[7]) && is_category(want[8]));
        assert(is_category(want[9]));
    }
    let mut k: usize = 0;
    while k < 10
        invariant
            k <= 10,
            want.len() == 10,
            forall|j: int| 0 <= j < 10 ==> kinds@[j]@ == #[trigger] want[j],
            forall|j: int| 0 <= j < 10 ==> is_category(#[trigger] want[j]),
            forall|j: int| 0 <= j < k ==> s@ != #[trigger] want[j],
        decreases 10 - k,
    {
        let kind = chars_of(kinds[k]);
        assert(kind@ == want[k as int]);
        if same_chars(s, &kind) {
            return true;
        }
        k += 1;
    }
    assert(!is_category(s@)) by {
        assert(s@ != want[0] && s@ != want[1] && s@ != want[2] && s@ != want[3]);
        assert(s@ != want[4] && s@ != want[5] && s@ != want[6] && s@ != want[7]);
        assert(s@ != want[8] && s@ != want[9]);
    }
    false
}

/// Whether two character vectors are equal.
pub(crate) fn same_chars(a: &Vec<char>, b: &Vec<char>) -> (r: bool)
    ensures
        r == (a@ == b@),
{
    if a.len() != b.len() {
        return false;
    }
    let mut i: usize = 0;
    while i < a.len()
        invariant
            a@.len() == b@.len(),
            i <= a@.len(),
            forall|j: int| 0 <= j < i ==> a@[j] == b@[j],
        decreases a@.len() - i,
    {
        if a[i] != b[i] {
            return false;
        }
        i += 1;
    }
    assert(a@ =~= b@);
    true
}

proof fn lemma_strip_step(s: Seq<char>, i: int)
    requires
        0 <= i,
        i + 2 <= s.len(),
        s[i] == '-',
        s[i + 1] == ' ',
    ensures
        strip_bullets(s.skip(i)) == strip_bullets(s.skip(i + 2)),
{
    let t = s.skip(i);
    assert(t[0] == '-' && t[1] == ' ');
    assert(t.skip(2) =~= s.skip(i + 2));
}

/// The characters of `s` without its leading `"- "` markers.
fn strip_bullets_exec(s: &Vec<char>) -> (r: Vec<char>)
    ensures
        r@ == strip_bullets(s@),
{
    let n = s.len();
    let mut i: usize = 0;
    assert(s@.skip(0) =~= s@);
    while n - i >= 2 && s[i] == '-' && s[i + 1] == ' '
        invariant
            i <= n == s@.len(),
            strip_bullets(s@) == strip_bullets(s@.skip(i as int)),
        decreases n - i,
    {
        proof {
            lemma_strip_step(s@, i as int);
        }
        i += 2;
    }
    let mut r: Vec<char> = Vec::new();
    push_range(&mut r, s, i, n);
    assert(r@ =~= s@.skip(i as int));
    r
}

/// The result of [`parse_message`] as values.
pub open spec fn parsed_view(r: Result<CommitMessage, GenerateError>) -> Result<MessageView, GenerateError> {
    match r {
        Ok(m) => Ok(m@),
        Err(e) => Err(e),
    }
}

/// Parses the accumulated model output, trimmed, as the commit-message record. Fails where
/// it is not JSON, where a field is missing or of the wrong type, or where the category is
/// not one of the kinds of commit.
pub fn parse_message(raw: &str) -> (r: Result<CommitMessage, GenerateError>)
    ensures
        parsed_view(r) == decode_message(raw@),
{
    let chars = chars_of(raw);
    let trimmed = trim_chars(&chars);
    let text = text_of(trimmed.as_slice());
    let fields = match read_record(text.as_str()) {
        Ok(f) => f,
        Err(_) => {
            return Err(GenerateError::MalformedDocument);
        },
    };
    let ghost rf = record_fields(text@)->0;
    let (c, t, ch) = fields;
    assert(rf.2 == opt_list_view(ch));
    let commit_type = match c {
        Some(c) => c,
        None => {
            return Err(GenerateError::BadField(Field::Category));
        },
    };
    let title = match t {
        Some(t) => t,
        None => {
            return Err(GenerateError::BadField(Field::Title));
        },
    };
    let items = match ch {
        Some(items) => items,
        None => {
            return Err(GenerateError::BadField(Field::Changes));
        },
    };
    let ghost item_views = items@.map_values(|x: Option<String>| opt_view(x));
    let mut changes: Vec<String> = Vec::new();
    let mut i: usize = 0;
    while i < items.len()
        invariant
            i <= items@.len(),
            item_views == items@.map_values(|x: Option<String>| opt_view(x)),
            record_fields(trim(raw@)) == Some(rf),
            rf == (Some(commit_type@), Some(title@), Some(item_views)),
            changes@.len() == i,
            forall|j: int| 0 <= j < i ==> item_views[j] is Some,
            forall|j: int| 0 <= j < i ==> Some(#[trigger] changes@[j]@) == item_views[j],
        decreases items@.len() - i,
    {
        match &items[i] {
            Some(item) => {
                assert(item_views[i as int] == opt_view(items@[i as int]));
                changes.push(item.clone());
            },
            None => {
                assert(item_views[i as int] == opt_view(items@[i as int]));
                assert(item_views[i as int] is None);
                assert(!all_texts(item_views));
                assert(opt_list_view(Some(items)) == Some(item_views));
                return Err(GenerateError::BadField(Field::Changes));
            },
        }
        i += 1;
    }
    let kind = chars_of(commit_type.as_str());
    if !is_category_exec(&kind) {
        return Err(GenerateError::UnknownCategory);
    }
    let m = CommitMessage { commit_type, title, changes };
    assert(m@.2 =~= texts(item_views));
    Ok(m)
}

/// Appends the characters of a string literal to `out`.
fn push_text(out: &mut Vec<char>, s: &str)
    ensures
        final(out)@ == old(out)@ + s@,
{
    let v = chars_of(s);
    push_range(out, &v, 0, v.len());
    assert(v@.subrange(0, v@.len() as int) =~= v@);
}

impl CommitMessage {
    /// The message as committed: `category: title`, a blank line, then each change as a
    /// `- ` bullet on its own line, with redundant leading markers and surrounding
    /// whitespace removed.
    pub fn render(&self) -> (r: String)
        ensures
            r@ == rendered(self@),
    {
        let mut out = chars_of(self.commit_type.as_str());
        out.push(':');
        out.push(' ');
        let title = chars_of(self.title.as_str());
        let t = trim_chars(&title);
        push_range(&mut out, &t, 0, t.len());
        out.push('\n');
        out.push('\n');
        let ghost changes = self@.2;
        assert(t@.subrange(0, t@.len() as int) =~= t@);
        assert(out@ =~= self@.0 + seq![':', ' '] + trim(self@.1) + seq!['\n', '\n']);
        let ghost head = out@;
        let mut i: usize = 0;
        assert(changes.take(0) =~= Seq::<Seq<char>>::empty());
        while i < self.changes.len()
            invariant
                i <= self.changes@.len() == changes.len(),
                changes == self@.2,
                out@ == head + bullets(changes.take(i as int)),
            decreases self.changes@.len() - i,
        {
            let c = chars_of(self.changes[i].as_str());
            let stripped = strip_bullets_exec(&c);
            let b = trim_chars(&stripped);
            out.push('-');
            out.push(' ');
            push_range(&mut out, &b, 0, b.len());
            out.push('\n');
            proof {
                assert(changes.take(i + 1).drop_last() =~= changes.take(i as int));
                assert(b@.subrange(0, b@.len() as int) =~= b@);
                assert(out@ =~= head + bullets(changes.take(i + 1)));
            }
            i += 1;
        }
        assert(changes.take(changes.len() as int) =~= changes);
        text_of(out.as_slice())
    }
}

/// A valid document that lacks a required field, or holds it with the wrong type, is
/// refused with a field error naming it; no default stands in for it.
pub proof fn lemma_missing_field_rejected(raw: Seq<char>)
    requires
        record_fields(trim(raw)) matches Some((c, t, ch)) && (c is None || t is None || ch is None),
    ensures
        decode_message(raw) matches Err(GenerateError::BadField(f)) && match record_fields(
            trim(raw),
        ) {
            Some((c, t, ch)) => (f == Field::Category <==> c is None) && (f == Field::Title ==> t is None)
                && (f == Field::Changes ==> ch is None || !all_texts(ch->0)),
            None => false,
        },
{
}

} // verus!
