use vstd::prelude::*;

use crate::commit::{owned, strings_view};
use crate::message::same_chars;
use crate::stream::opt_view;
use crate::text::{chars_of, occurs_at, occurs_at_exec, push_range, text_of, trim, trim_chars};

verus! {

/// The option that takes the intent hint as the next argument.
pub const INTENT_FLAG: &'static str = "--intent";

/// The prefix of the option that carries the intent hint in the same argument.
pub const INTENT_PREFIX: &'static str = "--intent=";

/// What the command line asks for.
#[derive(Debug, PartialEq, Eq)]
pub enum CliRequest {
    /// Generate a message, with the intent hint if one was given.
    Run(Option<String>),
    /// Print the usage text.
    Help,
    /// `--intent` came last, without its value.
    MissingIntentValue,
}

/// What the command line asks for, as values.
pub enum CliView {
    Run(Option<Seq<char>>),
    Help,
    MissingIntentValue,
}

impl View for CliRequest {
    type V = CliView;

    open spec fn view(&self) -> CliView {
        match self {
            CliRequest::Run(i) => CliView::Run(opt_view(*i)),
            CliRequest::Help => CliView::Help,
            CliRequest::MissingIntentValue => CliView::MissingIntentValue,
        }
    }
}

/// The request of the arguments from position `i` on, the last intent hint so far being
/// `intent`: `--intent v` and `--intent=v` set the hint, `-h` and `--help` ask for help at
/// once, anything else is ignored.
pub open spec fn request_from(args: Seq<Seq<char>>, i: int, intent: Option<Seq<char>>) -> CliView
    decreases args.len() - i,
{
    if i < 0 || i >= args.len() {
        CliView::Run(intent)
    } else if args[i] == INTENT_FLAG@ {
        if i + 1 < args.len() {
            request_from(args, i + 2, Some(args[i + 1]))
        } else {
            CliView::MissingIntentValue
        }
    } else if occurs_at(args[i], INTENT_PREFIX@, 0) {
        request_from(args, i + 1, Some(args[i].skip(INTENT_PREFIX@.len() as int)))
    } else if args[i] == "-h"@ || args[i] == "--help"@ {
        CliView::Help
    } else {
        request_from(args, i + 1, intent)
    }
}

/// Reads the command-line arguments, the program name excluded.
pub fn parse_args(args: &Vec<String>) -> (r: CliRequest)
    ensures
        r@ == request_from(strings_view(args@), 0, None),
{
    let ghost av = strings_view(args@);
    let flag = chars_of(INTENT_FLAG);
    let prefix = chars_of(INTENT_PREFIX);
    let short_help = chars_of("-h");
    let long_help = chars_of("--help");
    let mut intent: Option<String> = None;
    let mut i: usize = 0;
    while i < args.len()
        invariant
            i <= args@.len(),
            av == strings_view(args@),
            flag@ == INTENT_FLAG@,
            prefix@ == INTENT_PREFIX@,
            short_help@ == "-h"@,
            long_help@ == "--help"@,
            request_from(av, 0, None) == request_from(av, i as int, opt_view(intent)),
        decreases args@.len() - i,
    {
        let a = chars_of(args[i].as_str());
        assert(a@ == av[i as int]);
        if same_chars(&a, &flag) {
            if i + 1 < args.len() {
                intent = Some(owned(args[i + 1].as_str()));
                assert(av[i + 1] == args@[i + 1]@);
                i += 2;
            } else {
                return CliRequest::MissingIntentValue;
            }
        } else if occurs_at_exec(&a, &prefix, 0) {
            let mut rest: Vec<char> = Vec::new();
            push_range(&mut rest, &a, prefix.len(), a.len());
            assert(rest@ =~= a@.skip(prefix@.len() as int));
            intent = Some(text_of(rest.as_slice()));
            i += 1;
        } else if same_chars(&a, &short_help) || same_chars(&a, &long_help) {
            return CliRequest::Help;
        } else {
            i += 1;
        }
    }
    CliRequest::Run(intent)
}

/// What a reply to the acceptance question asks for.
#[derive(Clone, Copy, Debug, PartialEq, Eq, Structural)]
pub enum Reply {
    Accept,
    Reject,
    Edit,
    Invalid,
}

/// The lower-case form of a text, as `str::to_lowercase` gives it.
pub uninterp spec fn lower_of(s: Seq<char>) -> Seq<char>;

/// Relies on `str::to_lowercase`: the result depends on the characters alone.
#[verifier::external_body]
fn lowercase(s: &str) -> (r: String)
    ensures
        r@ == lower_of(s@),
{
    s.to_lowercase()
}

/// The reply that a trimmed, lower-cased answer stands for: empty or `y` accepts, `n`
/// rejects, `e` edits, anything else is invalid.
pub open spec fn reply_of(answer: Seq<char>) -> Reply {
    if answer.len() == 0 || answer == seq!['y'] {
        Reply::Accept
    } else if answer == seq!['n'] {
        Reply::Reject
    } else if answer == seq!['e'] {
        Reply::Edit
    } else {
        Reply::Invalid
    }
}

/// The reply for an answer already trimmed and lower-cased.
pub fn reply_for(answer: &str) -> (r: Reply)
    ensures
        r == reply_of(answer@),
{
    let a = chars_of(answer);
    if a.len() == 0 {
        return Reply::Accept;
    }
    if a.len() != 1 {
        return Reply::Invalid;
    }
    let c = a[0];
    assert(a@ =~= seq![c]);
    if c == 'y' {
        Reply::Accept
    } else if c == 'n' {
        Reply::Reject
    } else if c == 'e' {
        Reply::Edit
    } else {
        Reply::Invalid
    }
}

/// The reply that a line typed at the acceptance question stands for, read without
/// surrounding whitespace and regardless of case.
pub fn interpret_reply(line: &str) -> (r: Reply)
    ensures
        r == reply_of(lower_of(trim(line@))),
{
    let chars = chars_of(line);
    let trimmed = trim_chars(&chars);
    let t = text_of(trimmed.as_slice());
    let lower = lowercase(t.as_str());
    reply_for(lower.as_str())
}

} // verus!
