use vstd::prelude::*;

use crate::error::GenerateError;
use crate::text::{chars_of, count_newlines, is_blank, lemma_newlines_bound, lemma_newlines_concat,
    lemma_trim_blank, newlines, text_of, trim_chars};

verus! {

/// The text that `String::from_utf8_lossy` makes of a byte sequence.
pub uninterp spec fn lossy_text(b: Seq<u8>) -> Seq<char>;

/// What one transport line holds once parsed as JSON: `None` where it is not valid JSON;
/// otherwise `Some(None)` where it has no `message.content`, `Some(Some(None))` where that
/// field is not a string, and `Some(Some(Some(t)))` where it is the string `t`.
pub uninterp spec fn event_fragment(line: Seq<char>) -> Option<Option<Option<Seq<char>>>>;

/// The characters of an optional string.
pub open spec fn opt_view(o: Option<String>) -> Option<Seq<char>> {
    match o {
        Some(s) => Some(s@),
        None => None,
    }
}

/// Relies on `String::from_utf8_lossy`: decodes bytes, substituting invalid sequences.
#[verifier::external_body]
fn decode_lossy(b: &[u8]) -> (r: String)
    ensures
        r@ == lossy_text(b@),
{
    String::from_utf8_lossy(b).into_owned()
}

/// The characters of an optional field that may or may not be a string.
pub open spec fn content_view(o: Option<Option<String>>) -> Option<Option<Seq<char>>> {
    match o {
        Some(t) => Some(opt_view(t)),
        None => None,
    }
}

/// Relies on `serde_json::from_str` into a `serde_json::Value`, then reads `message.content`
/// if there is one, as a string if it is one.
#[verifier::external_body]
fn read_event(line: &str) -> (r: Result<Option<Option<String>>, serde_json::Error>)
    ensures
        r is Ok <==> event_fragment(line@) is Some,
        r matches Ok(o) ==> Some(content_view(o)) == event_fragment(line@),
{
    serde_json::from_str::<serde_json::Value>(line).map(
        |v| v.get("message").and_then(|m| m.get("content")).map(
            |c| c.as_str().map(|t| t.to_string()),
        ),
    )
}

/// Progress of the assembler: the document text so far and the bytes of the unfinished line.
pub type Progress = (Seq<char>, Seq<u8>);

/// The document text after one complete transport line is handled, or `None` where the
/// line is malformed: not JSON, or with a `message.content` that is not a string.
pub open spec fn absorb_line(raw: Seq<char>, line: Seq<u8>) -> Option<Seq<char>> {
    match event_fragment(lossy_text(line)) {
        Some(None) => Some(raw),
        Some(Some(Some(f))) => Some(raw + f),
        _ => None,
    }
}

/// Whether a transport line is well formed: JSON whose `message.content`, if present, is a
/// string.
pub open spec fn well_formed(line: Seq<u8>) -> bool {
    match event_fragment(lossy_text(line)) {
        Some(None) => true,
        Some(Some(Some(_))) => true,
        _ => false,
    }
}

/// One byte of the transport stream: a newline completes the pending line, any other byte
/// extends it. A failure is final.
pub open spec fn step(st: Option<Progress>, b: u8) -> Option<Progress> {
    match st {
        None => None,
        Some((raw, pending)) => if b == 10u8 {
            match absorb_line(raw, pending) {
                None => None,
                Some(r) => Some((r, Seq::<u8>::empty())),
            }
        } else {
            Some((raw, pending.push(b)))
        },
    }
}

/// The progress after `bytes`, starting from `st`.
pub open spec fn run_from(st: Option<Progress>, bytes: Seq<u8>) -> Option<Progress>
    decreases bytes.len(),
{
    if bytes.len() == 0 {
        st
    } else {
        step(run_from(st, bytes.drop_last()), bytes.last())
    }
}

/// The progress before any byte.
pub open spec fn start() -> Option<Progress> {
    Some((Seq::<char>::empty(), Seq::<u8>::empty()))
}

/// The progress after `bytes` from the start.
pub open spec fn run(bytes: Seq<u8>) -> Option<Progress> {
    run_from(start(), bytes)
}

/// The finished document once the stream `bytes` has ended: an unfinished last line is
/// handled as a line unless it is empty or blank.
pub open spec fn finished(bytes: Seq<u8>) -> Option<Seq<char>> {
    match run(bytes) {
        None => None,
        Some((raw, pending)) => if pending.len() == 0 || is_blank(lossy_text(pending)) {
            Some(raw)
        } else {
            absorb_line(raw, pending)
        },
    }
}

/// Bytes handed over in two pieces give the progress of the same bytes in one piece.
pub proof fn lemma_run_concat(st: Option<Progress>, a: Seq<u8>, b: Seq<u8>)
    ensures
        run_from(run_from(st, a), b) == run_from(st, a + b),
    decreases b.len(),
{
    if b.len() == 0 {
        assert(a + b =~= a);
    } else {
        assert((a + b).drop_last() =~= a + b.drop_last());
        lemma_run_concat(st, a, b.drop_last());
    }
}

/// Once failed, the assembler stays failed.
pub proof fn lemma_failure_final(b: Seq<u8>)
    ensures
        run_from(None, b) is None,
    decreases b.len(),
{
    if b.len() > 0 {
        lemma_failure_final(b.drop_last());
    }
}

/// The chunks of a transport stream, joined in order.
pub open spec fn joined(chunks: Seq<Seq<u8>>) -> Seq<u8>
    decreases chunks.len(),
{
    if chunks.len() == 0 {
        Seq::empty()
    } else {
        joined(chunks.drop_last()) + chunks.last()
    }
}

/// The progress after handing over `chunks` one after another.
pub open spec fn run_chunks(chunks: Seq<Seq<u8>>) -> Option<Progress>
    decreases chunks.len(),
{
    if chunks.len() == 0 {
        start()
    } else {
        run_from(run_chunks(chunks.drop_last()), chunks.last())
    }
}

/// However a stream is cut into chunks (at any byte, inside a line or inside a multi-byte
/// character), feeding the chunks in order ends in the progress that the whole stream gives.
pub proof fn lemma_any_chunking(chunks: Seq<Seq<u8>>)
    ensures
        run_chunks(chunks) == run(joined(chunks)),
    decreases chunks.len(),
{
    if chunks.len() > 0 {
        lemma_any_chunking(chunks.drop_last());
        lemma_run_concat(start(), joined(chunks.drop_last()), chunks.last());
    }
}

/// Whether `b` holds no newline byte.
pub open spec fn no_newline(b: Seq<u8>) -> bool {
    forall|i: int| 0 <= i < b.len() ==> b[i] != 10u8
}

/// Transport lines, each followed by a newline.
pub open spec fn framed(lines: Seq<Seq<u8>>) -> Seq<u8>
    decreases lines.len(),
{
    if lines.len() == 0 {
        Seq::empty()
    } else {
        framed(lines.drop_last()) + lines.last().push(10u8)
    }
}

/// The text that a sequence of well-formed transport lines carries, in order.
pub open spec fn fragments(lines: Seq<Seq<u8>>) -> Seq<char>
    decreases lines.len(),
{
    if lines.len() == 0 {
        Seq::empty()
    } else {
        fragments(lines.drop_last()) + match event_fragment(lossy_text(lines.last())) {
            Some(Some(Some(f))) => f,
            _ => Seq::<char>::empty(),
        }
    }
}

proof fn lemma_plain_bytes(raw: Seq<char>, pending: Seq<u8>, b: Seq<u8>)
    requires
        no_newline(b),
    ensures
        run_from(Some((raw, pending)), b) == Some((raw, pending + b)),
    decreases b.len(),
{
    if b.len() == 0 {
        assert(pending + b =~= pending);
    } else {
        lemma_plain_bytes(raw, pending, b.drop_last());
        assert((pending + b.drop_last()).push(b.last()) =~= pending + b);
    }
}

proof fn lemma_one_line(raw: Seq<char>, line: Seq<u8>)
    requires
        no_newline(line),
    ensures
        run_from(Some((raw, Seq::<u8>::empty())), line.push(10u8)) == match absorb_line(
            raw,
            line,
        ) {
            None => None,
            Some(r) => Some((r, Seq::<u8>::empty())),
        },
{
    lemma_plain_bytes(raw, Seq::<u8>::empty(), line);
    assert(line.push(10u8).drop_last() =~= line);
    assert(Seq::<u8>::empty() + line =~= line);
}

/// The document is the concatenation of the fragments that the transport lines carry, in
/// their order, however the fragments fall relative to the document's own structure.
pub proof fn lemma_concatenation(lines: Seq<Seq<u8>>)
    requires
        forall|i: int| 0 <= i < lines.len() ==> no_newline(#[trigger] lines[i]),
        forall|i: int| 0 <= i < lines.len() ==> well_formed(#[trigger] lines[i]),
    ensures
        run(framed(lines)) == Some((fragments(lines), Seq::<u8>::empty())),
        finished(framed(lines)) == Some(fragments(lines)),
    decreases lines.len(),
{
    if lines.len() > 0 {
        let init = lines.drop_last();
        assert forall|i: int| 0 <= i < init.len() implies no_newline(#[trigger] init[i]) by {
            assert(init[i] == lines[i]);
        }
        assert forall|i: int| 0 <= i < init.len() implies well_formed(#[trigger] init[i]) by {
            assert(init[i] == lines[i]);
        }
        lemma_concatenation(init);
        let last = lines.last();
        assert(no_newline(lines[lines.len() - 1]));
        assert(well_formed(lines[lines.len() - 1]));
        lemma_run_concat(start(), framed(init), last.push(10u8));
        lemma_one_line(fragments(init), last);
    }
}

/// A malformed line (not JSON, or with a `message.content` that is not a string) is fatal:
/// whatever well-formed lines came before it and whatever bytes follow it, the stream yields
/// no document.
pub proof fn lemma_malformed_line_fatal(lines: Seq<Seq<u8>>, bad: Seq<u8>, rest: Seq<u8>)
    requires
        forall|i: int| 0 <= i < lines.len() ==> no_newline(#[trigger] lines[i]),
        forall|i: int| 0 <= i < lines.len() ==> well_formed(#[trigger] lines[i]),
        no_newline(bad),
        !well_formed(bad),
    ensures
        run(framed(lines) + bad.push(10u8) + rest) is None,
        finished(framed(lines) + bad.push(10u8) + rest) is None,
{
    lemma_concatenation(lines);
    lemma_run_concat(start(), framed(lines), bad.push(10u8));
    lemma_one_line(fragments(lines), bad);
    lemma_run_concat(start(), framed(lines) + bad.push(10u8), rest);
    lemma_failure_final(rest);
}

/// A copy of a byte vector.
fn copy_bytes(v: &Vec<u8>) -> (r: Vec<u8>)
    ensures
        r@ == v@,
{
    let mut r: Vec<u8> = Vec::new();
    let mut i: usize = 0;
    while i < v.len()
        invariant
            i <= v@.len(),
            r@ == v@.take(i as int),
        decreases v@.len() - i,
    {
        r.push(v[i]);
        assert(v@.take(i + 1) =~= v@.take(i as int).push(v@[i as int]));
        i += 1;
    }
    assert(v@.take(v@.len() as int) =~= v@);
    r
}

/// What the assembler holds once the stream has ended.
pub struct Assembled {
    /// The document: every fragment in arrival order.
    pub raw_json: String,
    /// The number of newlines in the document, as printed while streaming.
    pub line_count: usize,
    /// The text of the last, unterminated line, still to be printed.
    pub tail: String,
}

/// Turns the chunks of a newline-delimited JSON stream into one document, counting the
/// newlines of the text that it hands back for printing.
pub struct Assembler {
    raw: Vec<char>,
    pending: Vec<u8>,
    line_count: usize,
    consumed: Ghost<Seq<u8>>,
}

impl Assembler {
    /// Every byte handed over so far.
    pub closed spec fn consumed(&self) -> Seq<u8> {
        self.consumed@
    }

    /// The document text so far.
    pub closed spec fn text(&self) -> Seq<char> {
        self.raw@
    }

    /// The bytes of the unfinished line.
    pub closed spec fn pending(&self) -> Seq<u8> {
        self.pending@
    }

    /// The progress matches the bytes handed over and the count matches the text.
    pub closed spec fn wf(&self) -> bool {
        &&& run(self.consumed@) == Some((self.raw@, self.pending@))
        &&& self.line_count == newlines(self.raw@)
    }

    /// An assembler that has seen no byte.
    pub fn new() -> (r: Assembler)
        ensures
            r.wf(),
            r.consumed() == Seq::<u8>::empty(),
            r.text() == Seq::<char>::empty(),
    {
        Assembler { raw: Vec::new(), pending: Vec::new(), line_count: 0, consumed: Ghost(Seq::empty()) }
    }

    /// The number of newlines in the text so far.
    pub fn line_count(&self) -> (r: usize)
        requires
            self.wf(),
        ensures
            r == newlines(self.text()),
    {
        self.line_count
    }

    /// The document text so far.
    pub fn raw_json(&self) -> (r: String)
        ensures
            r@ == self.text(),
    {
        text_of(self.raw.as_slice())
    }

    /// Handles one complete line: appends its fragment, if any, to the text and to `out`.
    fn take_line(&mut self, line: &[u8], out: &mut Vec<char>) -> (r: Result<(), GenerateError>)
        requires
            old(self).line_count == newlines(old(self).raw@),
        ensures
            r is Ok <==> absorb_line(old(self).raw@, line@) is Some,
            r is Err ==> r == Err::<(), GenerateError>(GenerateError::MalformedEvent),
            r is Err ==> final(self).raw@ == old(self).raw@ && final(self).line_count
                == old(self).line_count && final(out)@ == old(out)@,
            r is Ok ==> {
                &&& Some(final(self).raw@) == absorb_line(old(self).raw@, line@)
                &&& final(self).raw@ == old(self).raw@ + (final(out)@.skip(old(out)@.len() as int))
                &&& final(out)@.take(old(out)@.len() as int) == old(out)@
                &&& final(out)@.len() >= old(out)@.len()
                &&& final(self).line_count == newlines(final(self).raw@)
            },
            final(self).pending == old(self).pending,
            final(self).consumed == old(self).consumed,
    {
        let text = decode_lossy(line);
        match read_event(text.as_str()) {
            Err(_) => Err(GenerateError::MalformedEvent),
            Ok(Some(None)) => Err(GenerateError::MalformedEvent),
            Ok(None) => {
                assert(out@.skip(out@.len() as int) =~= Seq::<char>::empty());
                assert(out@.take(out@.len() as int) =~= out@);
                assert(self.raw@ + Seq::<char>::empty() =~= self.raw@);
                Ok(())
            },
            Ok(Some(Some(fragment))) => {
                let mut f = chars_of(fragment.as_str());
                let k = count_newlines(&f);
                let ghost before = self.raw@;
                let ghost out_before = out@;
                out.extend_from_slice(f.as_slice());
                self.raw.append(&mut f);
                let len = self.raw.len();
                proof {
                    lemma_newlines_concat(before, fragment@);
                    lemma_newlines_bound(self.raw@);
                    assert(self.line_count + k == newlines(self.raw@) <= len);
                    assert(out@.skip(out_before.len() as int) =~= fragment@);
                    assert(out@.take(out_before.len() as int) =~= out_before);
                }
                self.line_count = self.line_count + k;
                Ok(())
            },
        }
    }

    /// Hands over the next chunk of the stream and returns the text that its complete lines
    /// carry, to be printed. Fails at the first malformed line.
    pub fn feed(&mut self, chunk: &[u8]) -> (r: Result<String, GenerateError>)
        requires
            old(self).wf(),
        ensures
            r is Ok <==> run(old(self).consumed() + chunk@) is Some,
            r is Err ==> r == Err::<String, GenerateError>(GenerateError::MalformedEvent),
            r is Err ==> {
                &&& final(self).wf()
                &&& final(self).consumed() == old(self).consumed()
                &&& final(self).text() == old(self).text()
                &&& final(self).pending() == old(self).pending()
            },
            r matches Ok(emitted) ==> {
                &&& final(self).wf()
                &&& final(self).consumed() == old(self).consumed() + chunk@
                &&& run(final(self).consumed()) == Some((final(self).text(), final(self).pending()))
                &&& final(self).text() == old(self).text() + emitted@
            },
    {
        let ghost start_bytes = self.consumed@;
        let start_len = self.raw.len();
        let start_count = self.line_count;
        let saved = copy_bytes(&self.pending);
        let mut out: Vec<char> = Vec::new();
        let mut i: usize = 0;
        assert(start_bytes + chunk@.take(0) =~= start_bytes);
        while i < chunk.len()
            invariant
                i <= chunk@.len(),
                run(start_bytes + chunk@.take(i as int)) == Some((self.raw@, self.pending@)),
                self.line_count == newlines(self.raw@),
                self.raw@ == old(self).raw@ + out@,
                self.consumed@ == start_bytes,
                start_bytes == old(self).consumed(),
                old(self).wf(),
                start_len == old(self).raw@.len(),
                start_count == old(self).line_count,
                saved@ == old(self).pending@,
            decreases chunk@.len() - i,
        {
            let b = chunk[i];
            let ghost prev = start_bytes + chunk@.take(i as int);
            assert((start_bytes + chunk@.take(i + 1)).drop_last() =~= prev);
            assert((start_bytes + chunk@.take(i + 1)).last() == b);
            if b == 10u8 {
                let mut line: Vec<u8> = Vec::new();
                std::mem::swap(&mut line, &mut self.pending);
                let ghost out_before = out@;
                match self.take_line(line.as_slice(), &mut out) {
                    Err(e) => {
                        proof {
                            lemma_run_concat(start(), start_bytes + chunk@.take(i + 1), chunk@.skip(i + 1));
                            lemma_failure_final(chunk@.skip(i + 1));
                            assert(start_bytes + chunk@.take(i + 1) + chunk@.skip(i + 1) =~= start_bytes + chunk@);
                        }
                        self.raw.truncate(start_len);
                        self.line_count = start_count;
                        self.pending = saved;
                        assert(self.raw@ =~= old(self).raw@);
                        return Err(e);
                    },
                    Ok(()) => {
                        assert(out@.take(out_before.len() as int) == out_before);
                        assert(out@ =~= out@.take(out_before.len() as int) + out@.skip(
                            out_before.len() as int,
                        ));
                        assert(self.raw@ =~= old(self).raw@ + out@);
                    },
                }
            } else {
                self.pending.push(b);
            }
            i += 1;
        }
        assert(chunk@.take(chunk@.len() as int) =~= chunk@);
        self.consumed = Ghost(start_bytes + chunk@);
        Ok(text_of(out.as_slice()))
    }

    /// Ends the stream: handles an unterminated last line unless it is blank, and hands back
    /// the document with its newline count and the text still to be printed.
    pub fn finish(self) -> (r: Result<Assembled, GenerateError>)
        requires
            self.wf(),
        ensures
            r is Ok <==> finished(self.consumed()) is Some,
            r is Err ==> r == Err::<Assembled, GenerateError>(GenerateError::MalformedEvent),
            r matches Ok(a) ==> {
                &&& Some(a.raw_json@) == finished(self.consumed())
                &&& a.raw_json@ == self.text() + a.tail@
                &&& a.line_count == newlines(a.raw_json@)
            },
    {
        let mut this = self;
        let mut out: Vec<char> = Vec::new();
        if this.pending.len() > 0 {
            let text = decode_lossy(this.pending.as_slice());
            let chars = chars_of(text.as_str());
            let trimmed = trim_chars(&chars);
            proof {
                lemma_trim_blank(chars@);
            }
            if trimmed.len() > 0 {
                let mut line: Vec<u8> = Vec::new();
                std::mem::swap(&mut line, &mut this.pending);
                this.take_line(line.as_slice(), &mut out)?;
                assert(out@ =~= out@.skip(0));
            }
        }
        assert(this.raw@ =~= self.raw@ + out@);
        Ok(Assembled {
            raw_json: text_of(this.raw.as_slice()),
            line_count: this.line_count,
            tail: text_of(out.as_slice()),
        })
    }
}

} // verus!
