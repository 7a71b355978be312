//! The `context` builtin: `show`, `clear`, `trim <n>` and `summarize`
//! operations on the transcript, plus the help texts of builtins.

use vstd::prelude::*;
use crate::outcome::{
    completion_outcome, debug_quoted, debug_str, failure_line, message_views,
    provider_error_text, provider_exit_code, provider_message, setup_exit_code, setup_failure,
    EXIT_INVALID_USAGE,
    CommandOutcome, Message, MessageView, ProviderError, Role, EXIT_SUCCESS,
};
use crate::text::{append_str, chars_eq, string_views, to_chars};
use crate::transcript::{plain_text, show_text, EntryView, Transcript};

verus! {

// ---------------------------------------------------------------------------
// Help content
// ---------------------------------------------------------------------------

/// Which help content of a builtin is asked for.
#[derive(Debug, Clone, Copy, PartialEq, Eq, Structural)]
pub enum ContentType {
    DetailedHelp,
    ShortUsage,
    ShortDescription,
    ManPage,
}

/// `"usage: <name> <synopsis>\n"`.
pub open spec fn usage_text(name: Seq<char>, synopsis: Seq<char>) -> Seq<char> {
    "usage: "@ + name + " "@ + synopsis + "\n"@
}

/// `"<name> - <summary>\n"`.
pub open spec fn description_text(name: Seq<char>, summary: Seq<char>) -> Seq<char> {
    name + " - "@ + summary + "\n"@
}

/// The help content of a builtin: its usage line, or its one-line
/// description.
pub open spec fn help_text(
    name: Seq<char>,
    content_type: ContentType,
    synopsis: Seq<char>,
    summary: Seq<char>,
) -> Seq<char> {
    match content_type {
        ContentType::ShortDescription => description_text(name, summary),
        _ => usage_text(name, synopsis),
    }
}

/// Builds the help content of a builtin.
pub fn help_content(name: &str, content_type: ContentType, synopsis: &str, summary: &str) -> (r:
    String)
    ensures
        r@ == help_text(name@, content_type, synopsis@, summary@),
{
    match content_type {
        ContentType::ShortDescription => {
            let mut r = name.to_owned();
            append_str(&mut r, " - ");
            append_str(&mut r, summary);
            append_str(&mut r, "\n");
            r
        },
        _ => {
            let mut r = "usage: ".to_owned();
            append_str(&mut r, name);
            append_str(&mut r, " ");
            append_str(&mut r, synopsis);
            append_str(&mut r, "\n");
            r
        },
    }
}

// ---------------------------------------------------------------------------
// Non-negative integers (`usize::from_str`)
// ---------------------------------------------------------------------------

/// An ASCII decimal digit.
pub open spec fn is_digit(c: char) -> bool {
    0x30 <= c as u32 <= 0x39
}

/// The value of a string of decimal digits.
pub open spec fn digits_value(s: Seq<char>) -> nat
    decreases s.len(),
{
    if s.len() == 0 {
        0
    } else {
        digits_value(s.drop_last()) * 10 + (s.last() as u32 - 0x30) as nat
    }
}

/// The digits of an unsigned number: `s` without one leading `+`.
pub open spec fn unsigned_digits(s: Seq<char>) -> Seq<char> {
    if s.len() > 0 && s[0] == '+' {
        s.drop_first()
    } else {
        s
    }
}

/// What `usize::from_str` accepts: an optional `+`, then one or more ASCII
/// digits whose value fits in a `usize`.
pub open spec fn spec_parse_usize(s: Seq<char>) -> Option<usize> {
    let body = unsigned_digits(s);
    if body.len() > 0 && (forall|k: int| 0 <= k < body.len() ==> is_digit(#[trigger] body[k]))
        && digits_value(body) <= usize::MAX {
        Some(digits_value(body) as usize)
    } else {
        None
    }
}

/// Parses a non-negative integer as `usize::from_str` does.
pub fn parse_usize(s: &str) -> (r: Option<usize>)
    ensures
        r == spec_parse_usize(s@),
{
    let chars = to_chars(s);
    let start: usize = if chars.len() > 0 && chars[0] == '+' {
        1
    } else {
        0
    };
    let ghost body = chars@.subrange(start as int, chars@.len() as int);
    assert(body =~= unsigned_digits(s@));
    if start == chars.len() {
        return None;
    }
    let mut value: usize = 0;
    let mut overflow = false;
    let mut i = start;
    while i < chars.len()
        invariant
            start <= i <= chars@.len(),
            body == chars@.subrange(start as int, chars@.len() as int),
            chars@ == s@,
            body == unsigned_digits(s@),
            forall|k: int| start <= k < i ==> is_digit(#[trigger] chars@[k]),
            !overflow ==> value == digits_value(chars@.subrange(start as int, i as int)),
            overflow ==> digits_value(chars@.subrange(start as int, i as int)) > usize::MAX,
        decreases chars@.len() - i,
    {
        let c = chars[i];
        let code = c as u32;
        if code < 0x30 || code > 0x39 {
            assert(body[i - start] == c);
            assert(!is_digit(body[i - start]));
            return None;
        }
        let d = (code - 0x30) as usize;
        let ghost pre = chars@.subrange(start as int, i as int);
        let ghost next = chars@.subrange(start as int, i + 1);
        assert(next.drop_last() =~= pre);
        if !overflow {
            match value.checked_mul(10) {
                Some(v10) => match v10.checked_add(d) {
                    Some(v) => {
                        value = v;
                    },
                    None => {
                        overflow = true;
                    },
                },
                None => {
                    overflow = true;
                },
            }
        }
        i = i + 1;
    }
    assert(chars@.subrange(start as int, chars@.len() as int) == body);
    assert forall|k: int| 0 <= k < body.len() implies is_digit(#[trigger] body[k]) by {
        assert(body[k] == chars@[start + k]);
    }
    if overflow {
        None
    } else {
        Some(value)
    }
}

// ---------------------------------------------------------------------------
// `context`
// ---------------------------------------------------------------------------

/// A well-formed `context` invocation.
#[derive(Debug, Clone, Copy, PartialEq, Eq, Structural)]
pub enum ContextCommand {
    /// `context show [--timestamps]`.
    Show { timestamps: bool },
    /// `context clear`.
    Clear,
    /// `context trim <n>`.
    Trim(usize),
    /// `context summarize`.
    Summarize,
}

/// Why a `context` invocation is not well formed.
pub enum ContextUsageError {
    /// No subcommand was given.
    MissingSubcommand,
    /// `trim` without its count.
    MissingTrimCount,
    /// `trim` with a count that is not a non-negative integer.
    InvalidTrimCount(String),
    /// An unknown subcommand.
    UnknownSubcommand(String),
}

/// The mathematical content of a usage error.
pub enum ContextUsageErrorView {
    MissingSubcommand,
    MissingTrimCount,
    InvalidTrimCount(Seq<char>),
    UnknownSubcommand(Seq<char>),
}

impl View for ContextUsageError {
    type V = ContextUsageErrorView;

    open spec fn view(&self) -> ContextUsageErrorView {
        match self {
            ContextUsageError::MissingSubcommand => ContextUsageErrorView::MissingSubcommand,
            ContextUsageError::MissingTrimCount => ContextUsageErrorView::MissingTrimCount,
            ContextUsageError::InvalidTrimCount(s) => ContextUsageErrorView::InvalidTrimCount(s@),
            ContextUsageError::UnknownSubcommand(s) => ContextUsageErrorView::UnknownSubcommand(
                s@,
            ),
        }
    }
}

/// Whether some argument after the subcommand is `--timestamps`.
pub open spec fn wants_timestamps(args: Seq<Seq<char>>) -> bool {
    exists|k: int| 2 <= k < args.len() && #[trigger] args[k] == "--timestamps"@
}

/// How `context` reads its arguments (the first is the command name).
pub open spec fn spec_context_command(args: Seq<Seq<char>>) -> Result<
    ContextCommand,
    ContextUsageErrorView,
> {
    if args.len() < 2 {
        Err(ContextUsageErrorView::MissingSubcommand)
    } else if args[1] == "summarize"@ {
        Ok(ContextCommand::Summarize)
    } else if args[1] == "show"@ {
        Ok(ContextCommand::Show { timestamps: wants_timestamps(args) })
    } else if args[1] == "clear"@ {
        Ok(ContextCommand::Clear)
    } else if args[1] == "trim"@ {
        if args.len() < 3 {
            Err(ContextUsageErrorView::MissingTrimCount)
        } else {
            match spec_parse_usize(args[2]) {
                Some(n) => Ok(ContextCommand::Trim(n)),
                None => Err(ContextUsageErrorView::InvalidTrimCount(args[2])),
            }
        }
    } else {
        Err(ContextUsageErrorView::UnknownSubcommand(args[1]))
    }
}

/// The transcript after a `context` command.
pub open spec fn context_effect(t: Seq<EntryView>, c: ContextCommand) -> Seq<EntryView> {
    match c {
        ContextCommand::Clear => Seq::empty(),
        ContextCommand::Trim(n) => if n <= t.len() {
            t.skip(n as int)
        } else {
            Seq::empty()
        },
        _ => t,
    }
}

/// `context show` prints timestamps exactly when `--timestamps` is one of
/// the arguments after `show`, wherever it stands among them.
pub proof fn lemma_show_timestamps_flag(name: Seq<char>, rest: Seq<Seq<char>>)
    ensures
        spec_context_command(seq![name, "show"@] + rest) == Ok::<
            ContextCommand,
            ContextUsageErrorView,
        >(ContextCommand::Show { timestamps: rest.contains("--timestamps"@) }),
{
    reveal_strlit("show");
    reveal_strlit("summarize");
    let args = seq![name, "show"@] + rest;
    assert(args[1] == "show"@);
    assert(args.len() >= 2);
    assert("show"@.len() != "summarize"@.len());
    if rest.contains("--timestamps"@) {
        let k = choose|k: int| 0 <= k < rest.len() && rest[k] == "--timestamps"@;
        assert(args[k + 2] == rest[k]);
    }
    if wants_timestamps(args) {
        let k = choose|k: int| 2 <= k < args.len() && #[trigger] args[k] == "--timestamps"@;
        assert(rest[k - 2] == args[k]);
    }
}

/// `context trim n` drops the `n` oldest entries and keeps the others in
/// order; when the transcript has no more than `n` entries, none is left.
/// `context clear` leaves none.
pub proof fn lemma_trim_drops_oldest(t: Seq<EntryView>, n: usize)
    ensures
        context_effect(t, ContextCommand::Trim(n)).len() == (if n < t.len() {
            t.len() - n
        } else {
            0
        }),
        forall|i: int|
            0 <= i < context_effect(t, ContextCommand::Trim(n)).len() ==> #[trigger] context_effect(
                t,
                ContextCommand::Trim(n),
            )[i] == t[i + n],
        context_effect(t, ContextCommand::Clear).len() == 0,
{
}

/// What a `context` command prints on standard output.
pub open spec fn context_output(t: Seq<EntryView>, c: ContextCommand) -> Seq<char> {
    match c {
        ContextCommand::Show { timestamps } => show_text(t, timestamps),
        _ => Seq::empty(),
    }
}

/// What `context` writes to standard error for a malformed invocation.
pub open spec fn context_usage_text(e: ContextUsageErrorView) -> Seq<char> {
    match e {
        ContextUsageErrorView::MissingSubcommand => "context: usage: context show|clear|trim <n>\n"@,
        ContextUsageErrorView::MissingTrimCount => "context: trim: missing argument <n>\n"@,
        ContextUsageErrorView::InvalidTrimCount(n) => "context: trim: invalid argument "@
            + debug_quoted(n) + ": expected non-negative integer\n"@,
        ContextUsageErrorView::UnknownSubcommand(s) => "context: unknown subcommand "@
            + debug_quoted(s) + ": expected show, clear, trim, or summarize\n"@,
    }
}

/// The result of running `context` against the transcript.
pub enum ContextStep {
    /// The command ran; here is what it produced.
    Done(CommandOutcome),
    /// `summarize` needs the model provider; the transcript is untouched.
    Summarize,
}

/// The system prompt of `context summarize`.
pub open spec fn summary_prompt() -> Seq<char> {
    "You are a summarization assistant. Produce a concise summary of the following shell session transcript. Output only the summary text, with no preamble."@
}

/// The request `context summarize` sends for a non-empty transcript.
pub open spec fn summary_request(t: Seq<EntryView>) -> Seq<MessageView> {
    seq![(Role::System, summary_prompt()), (Role::User, plain_text(t))]
}

/// `context summarize`'s output for an empty transcript.
pub open spec fn empty_summary_text() -> Seq<char> {
    "(transcript is empty)\n"@
}

/// Implementation of the `context` shell-internal builtin.
pub struct ContextBuiltin;

impl ContextBuiltin {
    /// The builtin's help content.
    pub fn get_content(name: &str, content_type: ContentType) -> (r: String)
        ensures
            r@ == help_text(
                name@,
                content_type,
                "show|clear|trim <n>|summarize"@,
                "manage the shell transcript"@,
            ),
    {
        help_content(name, content_type, "show|clear|trim <n>|summarize", "manage the shell transcript")
    }

    /// Reads a `context` invocation; `args[0]` is the command name.
    pub fn parse(args: &Vec<String>) -> (r: Result<ContextCommand, ContextUsageError>)
        ensures
            match r {
                Ok(c) => spec_context_command(string_views(args@)) == Ok::<
                    ContextCommand,
                    ContextUsageErrorView,
                >(c),
                Err(e) => spec_context_command(string_views(args@)) == Err::<
                    ContextCommand,
                    ContextUsageErrorView,
                >(e@),
            },
    {
        let ghost av = string_views(args@);
        if args.len() < 2 {
            return Err(ContextUsageError::MissingSubcommand);
        }
        let sub = to_chars(args[1].as_str());
        assert(sub@ == av[1]);
        if chars_eq(&sub, &to_chars("summarize")) {
            Ok(ContextCommand::Summarize)
        } else if chars_eq(&sub, &to_chars("show")) {
            let flag = to_chars("--timestamps");
            let mut timestamps = false;
            let mut k: usize = 2;
            while k < args.len()
                invariant
                    2 <= k <= args@.len(),
                    av == string_views(args@),
                    flag@ == "--timestamps"@,
                    timestamps <==> exists|j: int| 2 <= j < k && #[trigger] av[j] == "--timestamps"@,
                decreases args@.len() - k,
            {
                if chars_eq(&to_chars(args[k].as_str()), &flag) {
                    timestamps = true;
                }
                assert(av[k as int] == args@[k as int]@);
                k = k + 1;
            }
            Ok(ContextCommand::Show { timestamps })
        } else if chars_eq(&sub, &to_chars("clear")) {
            Ok(ContextCommand::Clear)
        } else if chars_eq(&sub, &to_chars("trim")) {
            if args.len() < 3 {
                return Err(ContextUsageError::MissingTrimCount);
            }
            assert(av[2] == args@[2]@);
            match parse_usize(args[2].as_str()) {
                Some(n) => Ok(ContextCommand::Trim(n)),
                None => Err(ContextUsageError::InvalidTrimCount(args[2].clone())),
            }
        } else {
            Err(ContextUsageError::UnknownSubcommand(args[1].clone()))
        }
    }

    /// Runs `context` against the transcript: `show` prints it, `clear` and
    /// `trim` change it, `summarize` is handed back to the caller.
    pub fn execute(transcript: &mut Transcript, args: &Vec<String>) -> (r: ContextStep)
        ensures
            match spec_context_command(string_views(args@)) {
                Ok(ContextCommand::Summarize) => r is Summarize && final(transcript)@ == old(
                    transcript,
                )@,
                Ok(c) => r matches ContextStep::Done(o) && o.exit_code == EXIT_SUCCESS
                    && o.stdout@ == context_output(old(transcript)@, c) && o.stderr@ == Seq::<
                    char,
                >::empty() && final(transcript)@ == context_effect(old(transcript)@, c),
                Err(e) => r matches ContextStep::Done(o) && o.exit_code == EXIT_INVALID_USAGE
                    && o.stdout@ == Seq::<char>::empty() && o.stderr@ == context_usage_text(e)
                    && final(transcript)@ == old(transcript)@,
            },
    {
        match Self::parse(args) {
            Err(e) => ContextStep::Done(Self::usage_outcome(&e)),
            Ok(ContextCommand::Summarize) => ContextStep::Summarize,
            Ok(ContextCommand::Show { timestamps }) => {
                let out = transcript.show(timestamps);
                ContextStep::Done(
                    CommandOutcome { exit_code: EXIT_SUCCESS, stdout: out, stderr: String::new() },
                )
            },
            Ok(ContextCommand::Clear) => {
                transcript.clear();
                ContextStep::Done(
                    CommandOutcome {
                        exit_code: EXIT_SUCCESS,
                        stdout: String::new(),
                        stderr: String::new(),
                    },
                )
            },
            Ok(ContextCommand::Trim(n)) => {
                transcript.trim(n);
                ContextStep::Done(
                    CommandOutcome {
                        exit_code: EXIT_SUCCESS,
                        stdout: String::new(),
                        stderr: String::new(),
                    },
                )
            },
        }
    }

    /// The request for `context summarize`, or `None` when the transcript
    /// is empty (nothing to summarize).
    pub fn summary_request(transcript: &Transcript) -> (r: Option<Vec<Message>>)
        ensures
            plain_text(transcript@).len() == 0 ==> r is None,
            plain_text(transcript@).len() > 0 ==> (r matches Some(m) && message_views(m@)
                == summary_request(transcript@)),
    {
        let text = transcript.plain_text();
        if text.as_str().is_empty() {
            return None;
        }
        let mut m: Vec<Message> = Vec::new();
        m.push(
            Message {
                role: Role::System,
                content: "You are a summarization assistant. Produce a concise summary of the following shell session transcript. Output only the summary text, with no preamble.".to_owned(),
            },
        );
        m.push(Message { role: Role::User, content: text });
        assert(message_views(m@) =~= summary_request(transcript@));
        Some(m)
    }

    /// What `context` reports for a malformed invocation: exit code 2 and
    /// the reason on standard error.
    pub fn usage_outcome(e: &ContextUsageError) -> (o: CommandOutcome)
        ensures
            o.exit_code == EXIT_INVALID_USAGE,
            o.stdout@ == Seq::<char>::empty(),
            o.stderr@ == context_usage_text(e@),
    {
        let err = match e {
            ContextUsageError::MissingSubcommand => {
                "context: usage: context show|clear|trim <n>\n".to_owned()
            },
            ContextUsageError::MissingTrimCount => "context: trim: missing argument <n>\n".to_owned(),
            ContextUsageError::InvalidTrimCount(n) => {
                let mut m = "context: trim: invalid argument ".to_owned();
                let q = debug_str(n.as_str());
                append_str(&mut m, q.as_str());
                append_str(&mut m, ": expected non-negative integer\n");
                m
            },
            ContextUsageError::UnknownSubcommand(sub) => {
                let mut m = "context: unknown subcommand ".to_owned();
                let q = debug_str(sub.as_str());
                append_str(&mut m, q.as_str());
                append_str(&mut m, ": expected show, clear, trim, or summarize\n");
                m
            },
        };
        CommandOutcome { exit_code: EXIT_INVALID_USAGE, stdout: String::new(), stderr: err }
    }

    /// What `context summarize` reports when no provider could be set up:
    /// exit code 2 for missing configuration, 4 for anything else.
    pub fn setup_failure(e: &ProviderError) -> (o: CommandOutcome)
        ensures
            o.exit_code == setup_exit_code(e@),
            o.stdout@ == Seq::<char>::empty(),
            o.stderr@ == failure_line("context summarize"@, provider_error_text(e@)),
    {
        setup_failure("context summarize", e)
    }

    /// What `context summarize` reports for an empty transcript.
    pub fn empty_summary() -> (o: CommandOutcome)
        ensures
            o.exit_code == EXIT_SUCCESS,
            o.stdout@ == empty_summary_text(),
            o.stderr@ == Seq::<char>::empty(),
    {
        CommandOutcome {
            exit_code: EXIT_SUCCESS,
            stdout: "(transcript is empty)\n".to_owned(),
            stderr: String::new(),
        }
    }

    /// What `context summarize` reports once the provider has answered.
    pub fn summary_outcome(result: Result<String, ProviderError>) -> (o: CommandOutcome)
        ensures
            match result {
                Ok(text) => o.exit_code == EXIT_SUCCESS && o.stdout@ == text@ + "\n"@
                    && o.stderr@ == Seq::<char>::empty(),
                Err(e) => o.exit_code == provider_exit_code(e@) && o.stdout@ == Seq::<
                    char,
                >::empty() && o.stderr@ == failure_line(
                    "context summarize"@,
                    provider_message(e@),
                ),
            },
    {
        completion_outcome("context summarize", result)
    }
}

} // verus!
