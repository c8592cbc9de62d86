use vstd::prelude::*;

use crate::text::{chars_of, contains, contains_exec, disjoint, is_blank, lemma_no_marker,
    push_range, replace_two, replace_two_exec,
    text_of, trim, trim_chars};

verus! {

/// The template used where none is configured: it states the output contract and the kinds
/// of commit, and holds the `{intent}` and `{diff}` markers.
pub const DEFAULT_PROMPT: &'static str = r#"
You are a professional software engineer that writes high-quality commit messages.

Core principle:
- A good commit message explains intent (WHY) and the goal/outcome, not a line-by-line description of the diff.

Input:
- You will receive a Git diff and (optionally) an INTENT_HINT written by the user.
- If INTENT_HINT is present, treat it as the primary source of truth for "why".

Output requirements:
1. Output ONLY a JSON object with keys: `commit_type`, `title`, `changes`.
2. The final commit message will be rendered as:
   - "{commit_type}: {title}" on the first line
   - blank line
   - bullet list from `changes`, each item becomes "- {item}"

Commit message quality rules:
- Title MUST state the intent/outcome in ~50 chars (not "update X", not "refactor code").
  Prefer patterns like:
  - "Make <X> pass <Y>"
  - "Prevent <bad thing> in <context>"
  - "Enable <capability> for <reason>"
- Each bullet in `changes` MUST include intent language (use at least one of: "to", "so that", "because", "in order to").
  Bad: "Rename function", "Add check", "Update config"
  Good: "Rename X to clarify intent so that usage is unambiguous"
- Do NOT mechanically narrate the diff. Mention "what" only when necessary to support the "why".
- If intent cannot be inferred from the diff and INTENT_HINT is empty, write a cautious, general intent
  (e.g., maintainability, correctness, performance, developer experience) rather than listing file edits.

Classification:
`commit_type` must be one of:
fix, feat, docs, style, refactor, perf, test, build, ci, chore.

INTENT_HINT (optional, may be empty):
{intent}

DIFF:
{diff}
"#;

/// The structured-output constraint sent with the request: an object with a `commit_type`
/// drawn from the kinds of commit, a `title` string and a `changes` array of strings, all
/// three required.
pub const SCHEMA: &'static str = r#"{"type":"object","properties":{"commit_type":{"type":"string","enum":["fix","feat","docs","style","refactor","perf","test","build","ci","chore"]},"title":{"type":"string"},"changes":{"type":"array","items":{"type":"string"}}},"required":["commit_type","title","changes"]}"#;

/// The marker replaced by the diff.
pub const DIFF_MARK: &'static str = "{diff}";

/// The marker replaced by the intent hint.
pub const INTENT_MARK: &'static str = "{intent}";

/// What is appended after a template that has no `{diff}` marker, before the diff.
pub const DIFF_HEADING: &'static str = "\n\nDIFF:\n";

/// What is appended before an intent hint where the template has no `{intent}` marker.
pub const INTENT_HEADING: &'static str = "\n\nINTENT_HINT:\n";

/// The instruction that follows an appended intent hint.
pub const INTENT_GUIDANCE: &'static str = "\n\nGuidance: reflect this intent in the title and bullets; do not just restate the diff.\n";

/// The hint text substituted for `{intent}`: the hint, or nothing where none is given.
pub open spec fn hint_text(intent: Option<Seq<char>>) -> Seq<char> {
    match intent {
        Some(h) => h,
        None => Seq::empty(),
    }
}

/// The template with both markers substituted in one pass, and the diff appended under a
/// `DIFF:` heading where the template has no `{diff}` marker.
pub open spec fn prompt_base(tpl: Seq<char>, diff: Seq<char>, intent: Option<Seq<char>>) -> Seq<char> {
    let body = replace_two(tpl, DIFF_MARK@, diff, INTENT_MARK@, hint_text(intent));
    if contains(tpl, DIFF_MARK@) {
        body
    } else {
        body + DIFF_HEADING@ + diff
    }
}

/// The section appended for an intent hint.
pub open spec fn intent_section(hint: Seq<char>) -> Seq<char> {
    INTENT_HEADING@ + trim(hint) + INTENT_GUIDANCE@
}

/// The prompt for a template, a diff and an optional intent hint: the markers of the template
/// are substituted (neither the diff nor the hint is searched for markers), and where the
/// template has no `{intent}` marker a non-blank hint is appended in its own section.
pub open spec fn prompt_text(tpl: Seq<char>, diff: Seq<char>, intent: Option<Seq<char>>) -> Seq<char> {
    let base = prompt_base(tpl, diff, intent);
    match intent {
        Some(h) => if !contains(tpl, INTENT_MARK@) && !is_blank(h) {
            base + intent_section(h)
        } else {
            base
        },
        None => base,
    }
}

/// The template that a call uses: the configured one, else the default.
pub open spec fn chosen_template(tpl: Option<&str>) -> Seq<char> {
    match tpl {
        Some(t) => t@,
        None => DEFAULT_PROMPT@,
    }
}

/// The characters of an optional text.
pub open spec fn opt_str_view(o: Option<&str>) -> Option<Seq<char>> {
    match o {
        Some(s) => Some(s@),
        None => None,
    }
}

/// Builds the instruction sent to the model from a template (the default where none is
/// given), the diff and an optional hint on why the change is made.
pub fn compose_prompt(diff_text: &str, prompt_tpl: Option<&str>, intent_hint: Option<&str>) -> (r: String)
    ensures
        r@ == prompt_text(chosen_template(prompt_tpl), diff_text@, opt_str_view(intent_hint)),
{
    let tpl = match prompt_tpl {
        Some(t) => chars_of(t),
        None => chars_of(DEFAULT_PROMPT),
    };
    let diff = chars_of(diff_text);
    let hint = match intent_hint {
        Some(h) => chars_of(h),
        None => Vec::new(),
    };
    let diff_mark = chars_of(DIFF_MARK);
    let intent_mark = chars_of(INTENT_MARK);
    proof {
        reveal_strlit("{diff}");
        reveal_strlit("{intent}");
    }
    let has_diff = contains_exec(&tpl, &diff_mark);
    let has_intent = contains_exec(&tpl, &intent_mark);
    let mut out = replace_two_exec(&tpl, &diff_mark, &diff, &intent_mark, &hint);
    assert(hint@ == hint_text(opt_str_view(intent_hint)));
    if !has_diff {
        let heading = chars_of(DIFF_HEADING);
        push_range(&mut out, &heading, 0, heading.len());
        push_range(&mut out, &diff, 0, diff.len());
        assert(heading@.subrange(0, heading@.len() as int) =~= heading@);
        assert(diff@.subrange(0, diff@.len() as int) =~= diff@);
    }
    assert(out@ =~= prompt_base(tpl@, diff@, opt_str_view(intent_hint)));
    if !has_intent {
        if intent_hint.is_some() {
            let trimmed = trim_chars(&hint);
            proof {
                crate::text::lemma_trim_blank(hint@);
            }
            if trimmed.len() > 0 {
                let heading = chars_of(INTENT_HEADING);
                let guidance = chars_of(INTENT_GUIDANCE);
                let ghost base = out@;
                push_range(&mut out, &heading, 0, heading.len());
                push_range(&mut out, &trimmed, 0, trimmed.len());
                push_range(&mut out, &guidance, 0, guidance.len());
                assert(heading@.subrange(0, heading@.len() as int) =~= heading@);
                assert(trimmed@.subrange(0, trimmed@.len() as int) =~= trimmed@);
                assert(guidance@.subrange(0, guidance@.len() as int) =~= guidance@);
                assert(out@ =~= base + intent_section(hint@));
            }
        }
    }
    text_of(out.as_slice())
}

/// Where the template holds both `{diff}` and `{intent}`, a diff and a hint that are not
/// empty and share no character with either marker are substituted for every marker, and
/// no marker text is left in the prompt.
pub proof fn lemma_placeholders_replaced(tpl: Seq<char>, diff: Seq<char>, hint: Seq<char>)
    requires
        contains(tpl, DIFF_MARK@),
        contains(tpl, INTENT_MARK@),
        diff.len() > 0,
        hint.len() > 0,
        disjoint(diff, DIFF_MARK@),
        disjoint(diff, INTENT_MARK@),
        disjoint(hint, DIFF_MARK@),
        disjoint(hint, INTENT_MARK@),
    ensures
        prompt_text(tpl, diff, Some(hint)) == replace_two(tpl, DIFF_MARK@, diff, INTENT_MARK@, hint),
        !contains(prompt_text(tpl, diff, Some(hint)), DIFF_MARK@),
        !contains(prompt_text(tpl, diff, Some(hint)), INTENT_MARK@),
{
    reveal_strlit("{diff}");
    reveal_strlit("{intent}");
    lemma_no_marker(tpl, DIFF_MARK@, diff, INTENT_MARK@, hint, DIFF_MARK@);
    lemma_no_marker(tpl, DIFF_MARK@, diff, INTENT_MARK@, hint, INTENT_MARK@);
}

/// Where the template has no `{intent}` marker, a non-blank hint ends the prompt in a
/// delimited intent section, whatever the diff holds.
pub proof fn lemma_intent_appended(tpl: Seq<char>, diff: Seq<char>, hint: Seq<char>)
    requires
        !contains(tpl, INTENT_MARK@),
        !is_blank(hint),
    ensures
        prompt_text(tpl, diff, Some(hint)) == prompt_base(tpl, diff, Some(hint)) + intent_section(hint),
        prompt_text(tpl, diff, Some(hint)).len() >= intent_section(hint).len(),
        prompt_text(tpl, diff, Some(hint)).subrange(
            prompt_text(tpl, diff, Some(hint)).len() - intent_section(hint).len(),
            prompt_text(tpl, diff, Some(hint)).len() as int,
        ) == intent_section(hint),
{
    let p = prompt_text(tpl, diff, Some(hint));
    let b = prompt_base(tpl, diff, Some(hint));
    assert(p.subrange(b.len() as int, p.len() as int) =~= intent_section(hint));
}

/// A lower-case hexadecimal digit.
pub open spec fn hex_digit(n: int) -> char {
    seq!['0', '1', '2', '3', '4', '5', '6', '7', '8', '9', 'a', 'b', 'c', 'd', 'e', 'f'][n]
}

/// One character as it stands inside a JSON string written by serde_json: a quote and a
/// backslash are escaped, the control characters with a short form take it, the other
/// characters below U+0020 become `\u00` and two hexadecimal digits, and all others stay.
pub open spec fn json_escape(c: char) -> Seq<char> {
    if c == '"' {
        seq!['\\', '"']
    } else if c == '\\' {
        seq!['\\', '\\']
    } else if c == '\u{8}' {
        seq!['\\', 'b']
    } else if c == '\t' {
        seq!['\\', 't']
    } else if c == '\n' {
        seq!['\\', 'n']
    } else if c == '\u{c}' {
        seq!['\\', 'f']
    } else if c == '\r' {
        seq!['\\', 'r']
    } else if (c as u32) < 0x20 {
        seq!['\\', 'u', '0', '0', hex_digit((c as u32) as int / 16), hex_digit((c as u32) as int % 16)]
    } else {
        seq![c]
    }
}

/// The characters of a text, each escaped for a JSON string.
pub open spec fn json_escaped(s: Seq<char>) -> Seq<char>
    decreases s.len(),
{
    if s.len() == 0 {
        Seq::empty()
    } else {
        json_escaped(s.drop_last()) + json_escape(s.last())
    }
}

/// The quoted, escaped JSON string that serde_json writes for a text.
pub open spec fn json_quoted(s: Seq<char>) -> Seq<char> {
    seq!['"'] + json_escaped(s) + seq!['"']
}

/// Relies on `serde_json::to_string` on a `str`: the text quoted, each character escaped as
/// its string formatter does. Serialising a `str` into the in-memory buffer that it writes
/// to has no failing path.
#[verifier::external_body]
fn quote_json(s: &str) -> (r: String)
    ensures
        r@ == json_quoted(s@),
{
    serde_json::to_string(s).unwrap()
}

/// The body of the chat request: the model, the prompt as the one user message, streaming
/// on, and the schema as the output format.
pub open spec fn request_text(model: Seq<char>, prompt: Seq<char>) -> Seq<char> {
    "{\"model\":"@ + json_quoted(model) + ",\"messages\":[{\"role\":\"user\",\"content\":"@
        + json_quoted(prompt) + "}],\"stream\":true,\"format\":"@ + SCHEMA@ + "}"@
}

/// The JSON body of the streaming chat request for `prompt` to `model`.
pub fn request_body(model: &str, prompt: &str) -> (r: String)
    ensures
        r@ == request_text(model@, prompt@),
{
    let mut out = chars_of("{\"model\":");
    let q = quote_json(model);
    let qm = chars_of(q.as_str());
    push_range(&mut out, &qm, 0, qm.len());
    let part = chars_of(",\"messages\":[{\"role\":\"user\",\"content\":");
    push_range(&mut out, &part, 0, part.len());
    let q2 = quote_json(prompt);
    let qp = chars_of(q2.as_str());
    push_range(&mut out, &qp, 0, qp.len());
    let part2 = chars_of("}],\"stream\":true,\"format\":");
    push_range(&mut out, &part2, 0, part2.len());
    let schema = chars_of(SCHEMA);
    push_range(&mut out, &schema, 0, schema.len());
    out.push('}');
    proof {
        reveal_strlit("}");
        assert(qm@.subrange(0, qm@.len() as int) =~= qm@);
        assert(part@.subrange(0, part@.len() as int) =~= part@);
        assert(qp@.subrange(0, qp@.len() as int) =~= qp@);
        assert(part2@.subrange(0, part2@.len() as int) =~= part2@);
        assert(schema@.subrange(0, schema@.len() as int) =~= schema@);
        assert(out@ =~= request_text(model@, prompt@));
    }
    text_of(out.as_slice())
}

} // verus!
