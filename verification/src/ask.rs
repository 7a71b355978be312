//! The `ask` builtin's decisions: reading its arguments, assembling the
//! prompt from words and piped input, building the request with or without
//! the transcript as context, and turning the model's answer into output
//! and a pending transcript entry.

use vstd::prelude::*;
use crate::context::{context_effect, help_content, help_text, ContentType, ContextCommand};
use crate::outcome::{
    completion_outcome, debug_quoted, debug_str, failure_line, EXIT_INVALID_USAGE, message_views, provider_exit_code, provider_message,
    CommandOutcome, Message, MessageView, ProviderError, Role, EXIT_SUCCESS,
};
use crate::text::{
    append_str, chars_eq, join, occurs_at, join_strings, string_from_range, string_views,
    to_chars, trim_end_char, trim_end_char_len,
};
use crate::transcript::{plain, plain_lines, plain_text, EntryView, PendingResponse, Transcript};

verus! {

/// The arguments of a well-formed `ask` invocation.
pub struct AskArgs {
    /// `--fresh` or `--no-transcript`: send no transcript context.
    pub fresh: bool,
    /// The positional words of the prompt.
    pub words: Vec<String>,
}

/// Why an `ask` invocation cannot proceed (exit code 2).
pub enum AskUsageError {
    /// An argument starting with `-` that is not a known flag.
    UnknownFlag(String),
    /// Neither prompt words nor piped input.
    NoPrompt,
}

/// The mathematical content of a usage error.
pub enum AskUsageErrorView {
    UnknownFlag(Seq<char>),
    NoPrompt,
}

impl View for AskUsageError {
    type V = AskUsageErrorView;

    open spec fn view(&self) -> AskUsageErrorView {
        match self {
            AskUsageError::UnknownFlag(s) => AskUsageErrorView::UnknownFlag(s@),
            AskUsageError::NoPrompt => AskUsageErrorView::NoPrompt,
        }
    }
}

/// A flag that turns the transcript context off.
pub open spec fn is_fresh_flag(a: Seq<char>) -> bool {
    a == "--fresh"@ || a == "--no-transcript"@
}

/// How `ask` reads `args[1..from]`: whether a fresh flag was seen and the
/// prompt words, or the first unknown flag.
pub open spec fn ask_args_upto(args: Seq<Seq<char>>, n: int) -> Result<
    (bool, Seq<Seq<char>>),
    Seq<char>,
>
    decreases n,
{
    if n <= 1 {
        Ok((false, seq![]))
    } else {
        match ask_args_upto(args, n - 1) {
            Err(flag) => Err(flag),
            Ok((fresh, words)) => {
                let a = args[n - 1];
                if is_fresh_flag(a) {
                    Ok((true, words))
                } else if a.len() > 0 && a[0] == '-' {
                    Err(a)
                } else {
                    Ok((fresh, words.push(a)))
                }
            },
        }
    }
}

proof fn lemma_unknown_flag_stops(args: Seq<Seq<char>>, m: int, n: int)
    requires
        1 <= m <= n,
        ask_args_upto(args, m) is Err,
    ensures
        ask_args_upto(args, n) == ask_args_upto(args, m),
    decreases n - m,
{
    if n > m {
        lemma_unknown_flag_stops(args, m, n - 1);
    }
}

/// How `ask` reads its arguments (the first is the command name).
pub open spec fn spec_ask_args(args: Seq<Seq<char>>) -> Result<(bool, Seq<Seq<char>>), Seq<char>> {
    ask_args_upto(args, args.len() as int)
}

/// Piped input as part of the prompt: without trailing newlines, and absent
/// when nothing is left.
pub open spec fn piped_part(input: Seq<char>) -> Option<Seq<char>> {
    let t = trim_end_char(input, '\n');
    if t.len() == 0 {
        None
    } else {
        Some(t)
    }
}

/// The prompt: the words joined by spaces, then the piped input on a line
/// of its own; `None` when there is neither.
pub open spec fn spec_prompt(words: Seq<Seq<char>>, piped: Option<Seq<char>>) -> Option<
    Seq<char>,
> {
    match piped {
        None => if words.len() == 0 {
            None
        } else {
            Some(join(words, " "@))
        },
        Some(p) => if words.len() == 0 {
            Some(p)
        } else {
            Some(join(words, " "@) + "\n"@ + p)
        },
    }
}

/// The transcript context sent with the prompt: none for a fresh request or
/// an empty transcript, otherwise the transcript as plain text.
pub open spec fn spec_context(fresh: bool, t: Seq<EntryView>) -> Option<Seq<char>> {
    if fresh || t.len() == 0 {
        None
    } else {
        Some(plain_text(t))
    }
}

/// The user message: the context, a separator and the prompt; the prompt
/// alone without context.
pub open spec fn user_content(context: Option<Seq<char>>, prompt: Seq<char>) -> Seq<char> {
    match context {
        Some(c) => c + "\n\n---\n\n"@ + prompt,
        None => prompt,
    }
}

/// The usage line of `ask`.
pub open spec fn ask_usage_line() -> Seq<char> {
    "usage: ask [--fresh|--no-transcript] [prompt...]\n"@
}

/// What `ask` writes to standard error when it cannot proceed.
pub open spec fn ask_usage_text(e: AskUsageErrorView) -> Seq<char> {
    match e {
        AskUsageErrorView::UnknownFlag(f) => "ask: unknown flag "@ + debug_quoted(f) + "\n"@
            + ask_usage_line(),
        AskUsageErrorView::NoPrompt => "ask: no prompt provided\n"@ + ask_usage_line(),
    }
}

/// The system prompt of `ask`.
pub open spec fn system_prompt() -> Seq<char> {
    "You are an AI assistant integrated into a Unix shell called clank.sh. The user's shell session transcript is provided as context. Answer the user's question or complete their request concisely and accurately. When referring to commands or code, use plain text without markdown formatting unless the user explicitly asks for it."@
}

/// The messages `ask` sends.
pub open spec fn ask_request(context: Option<Seq<char>>, prompt: Seq<char>) -> Seq<MessageView> {
    seq![(Role::System, system_prompt()), (Role::User, user_content(context, prompt))]
}

/// Implementation of the `ask` builtin.
pub struct AskBuiltin;

impl AskBuiltin {
    /// The builtin's help content.
    pub fn get_content(name: &str, content_type: ContentType) -> (r: String)
        ensures
            r@ == help_text(
                name@,
                content_type,
                "[--fresh|--no-transcript] [prompt...]"@,
                "invoke the configured AI model"@,
            ),
    {
        help_content(
            name,
            content_type,
            "[--fresh|--no-transcript] [prompt...]",
            "invoke the configured AI model",
        )
    }

    /// Reads an `ask` invocation; `args[0]` is the command name.
    pub fn parse_args(args: &Vec<String>) -> (r: Result<AskArgs, AskUsageError>)
        ensures
            match spec_ask_args(string_views(args@)) {
                Ok((fresh, words)) => r matches Ok(a) && a.fresh == fresh && string_views(
                    a.words@,
                ) == words,
                Err(flag) => r matches Err(e) && e@ == AskUsageErrorView::UnknownFlag(flag),
            },
    {
        let ghost av = string_views(args@);
        let fresh_flag = to_chars("--fresh");
        let no_transcript_flag = to_chars("--no-transcript");
        let mut fresh = false;
        let mut words: Vec<String> = Vec::new();
        let mut i: usize = 1;
        if args.len() == 0 {
            assert(string_views(words@) =~= Seq::<Seq<char>>::empty());
            return Ok(AskArgs { fresh, words });
        }
        assert(string_views(words@) =~= Seq::<Seq<char>>::empty());
        while i < args.len()
            invariant
                1 <= i <= args@.len(),
                av == string_views(args@),
                fresh_flag@ == "--fresh"@,
                no_transcript_flag@ == "--no-transcript"@,
                ask_args_upto(av, i as int) == Ok::<(bool, Seq<Seq<char>>), Seq<char>>(
                    (fresh, string_views(words@)),
                ),
            decreases args@.len() - i,
        {
            let a = to_chars(args[i].as_str());
            assert(a@ == av[i as int]);
            if chars_eq(&a, &fresh_flag) || chars_eq(&a, &no_transcript_flag) {
                fresh = true;
            } else if a.len() > 0 && a[0] == '-' {
                proof {
                    lemma_unknown_flag_stops(av, i + 1, args@.len() as int);
                }
                return Err(AskUsageError::UnknownFlag(args[i].clone()));
            } else {
                let ghost before = string_views(words@);
                words.push(args[i].clone());
                assert(string_views(words@) =~= before.push(av[i as int]));
            }
            i = i + 1;
        }
        Ok(AskArgs { fresh, words })
    }

    /// The prompt from the words and the raw piped input (`None` when input
    /// is a terminal), or `NoPrompt`.
    pub fn prompt(words: &Vec<String>, piped: Option<&str>) -> (r: Result<String, AskUsageError>)
        ensures
            match spec_prompt(
                string_views(words@),
                match piped {
                    Some(p) => piped_part(p@),
                    None => None,
                },
            ) {
                Some(p) => r matches Ok(s) && s@ == p,
                None => r matches Err(e) && e@ == AskUsageErrorView::NoPrompt,
            },
    {
        let piped_text: Option<String> = match piped {
            Some(p) => {
                let chars = to_chars(p);
                let n = trim_end_char_len(&chars, chars.len(), '\n');
                assert(chars@.subrange(0, chars@.len() as int) =~= chars@);
                if n == 0 {
                    None
                } else {
                    Some(string_from_range(&chars, 0, n))
                }
            },
            None => None,
        };
        match piped_text {
            None => {
                if words.len() == 0 {
                    Err(AskUsageError::NoPrompt)
                } else {
                    Ok(join_strings(words, " "))
                }
            },
            Some(p) => {
                if words.len() == 0 {
                    Ok(p)
                } else {
                    let mut s = join_strings(words, " ");
                    append_str(&mut s, "\n");
                    append_str(&mut s, p.as_str());
                    Ok(s)
                }
            },
        }
    }

    /// What `ask` reports when it cannot proceed: exit code 2, the reason and
    /// the usage line on standard error.
    pub fn usage_outcome(e: &AskUsageError) -> (o: CommandOutcome)
        ensures
            o.exit_code == EXIT_INVALID_USAGE,
            o.stdout@ == Seq::<char>::empty(),
            o.stderr@ == ask_usage_text(e@),
    {
        let mut err = match e {
            AskUsageError::UnknownFlag(f) => {
                let mut m = "ask: unknown flag ".to_owned();
                let q = debug_str(f.as_str());
                append_str(&mut m, q.as_str());
                append_str(&mut m, "\n");
                m
            },
            AskUsageError::NoPrompt => "ask: no prompt provided\n".to_owned(),
        };
        append_str(&mut err, "usage: ask [--fresh|--no-transcript] [prompt...]\n");
        CommandOutcome { exit_code: EXIT_INVALID_USAGE, stdout: String::new(), stderr: err }
    }

    /// The messages to send: the system prompt, then the prompt preceded by
    /// the transcript unless `fresh` or the transcript is empty.
    pub fn request(fresh: bool, transcript: &Transcript, prompt: &str) -> (r: Vec<Message>)
        ensures
            message_views(r@) == ask_request(spec_context(fresh, transcript@), prompt@),
    {
        let content = if fresh || transcript.is_empty() {
            prompt.to_owned()
        } else {
            let mut c = transcript.plain_text();
            append_str(&mut c, "\n\n---\n\n");
            append_str(&mut c, prompt);
            c
        };
        let mut m: Vec<Message> = Vec::new();
        m.push(
            Message {
                role: Role::System,
                content: "You are an AI assistant integrated into a Unix shell called clank.sh. The user's shell session transcript is provided as context. Answer the user's question or complete their request concisely and accurately. When referring to commands or code, use plain text without markdown formatting unless the user explicitly asks for it.".to_owned(),
            },
        );
        m.push(Message { role: Role::User, content });
        assert(message_views(m@) =~= ask_request(spec_context(fresh, transcript@), prompt@));
        m
    }

    /// What `ask` reports once the provider has answered; a successful
    /// answer is also left in `pending` for the statement recorder.
    pub fn finish(result: Result<String, ProviderError>, pending: &mut PendingResponse) -> (o:
        CommandOutcome)
        ensures
            match result {
                Ok(text) => o.exit_code == EXIT_SUCCESS && o.stdout@ == text@ + "\n"@
                    && o.stderr@ == Seq::<char>::empty() && final(pending)@ == Some(text@),
                Err(e) => o.exit_code == provider_exit_code(e@) && o.stdout@ == Seq::<
                    char,
                >::empty() && o.stderr@ == failure_line("ask"@, provider_message(e@))
                    && final(pending)@ == old(pending)@,
            },
    {
        match result {
            Ok(text) => {
                let o = completion_outcome("ask", Ok(text.clone()));
                pending.set(text);
                o
            },
            Err(e) => completion_outcome("ask", Err(e)),
        }
    }
}

// ---------------------------------------------------------------------------
// Laws of the request
// ---------------------------------------------------------------------------

proof fn lemma_join_contains_parts(parts: Seq<Seq<char>>, sep: Seq<char>, i: int)
    requires
        0 <= i < parts.len(),
    ensures
        exists|off: int| occurs_at(join(parts, sep), parts[i], off),
    decreases parts.len(),
{
    if parts.len() == 1 {
        assert(occurs_at(join(parts, sep), parts[i], 0)) by {
            assert(join(parts, sep).subrange(0, parts[0].len() as int) =~= parts[0]);
        }
    } else if i == parts.len() - 1 {
        let j = join(parts, sep);
        let off: int = (join(parts.drop_last(), sep).len() + sep.len()) as int;
        assert(j.subrange(off, off + parts[i].len()) =~= parts[i]);
        assert(occurs_at(j, parts[i], off));
    } else {
        let pre = parts.drop_last();
        lemma_join_contains_parts(pre, sep, i);
        let off = choose|off: int| occurs_at(join(pre, sep), pre[i], off);
        let j = join(parts, sep);
        assert(j.subrange(off, off + parts[i].len()) =~= join(pre, sep).subrange(
            off,
            off + pre[i].len(),
        ));
        assert(occurs_at(j, parts[i], off));
    }
}

/// With `--fresh` (or `--no-transcript`) the model sees only the prompt:
/// the user message is exactly the prompt, whatever the transcript holds.
pub proof fn lemma_fresh_request_is_prompt_only(t: Seq<EntryView>, prompt: Seq<char>)
    ensures
        ask_request(spec_context(true, t), prompt)[1] == (Role::User, prompt),
        ask_request(spec_context(true, t), prompt).len() == 2,
{
}

/// Without `--fresh`, every transcript entry's rendering occurs in the user
/// message, ahead of the prompt, which ends it.
pub proof fn lemma_request_carries_transcript(t: Seq<EntryView>, prompt: Seq<char>, i: int)
    requires
        0 <= i < t.len(),
    ensures
        exists|off: int| occurs_at(ask_request(spec_context(false, t), prompt)[1].1, plain(t[i]), off),
        ({
            let c = ask_request(spec_context(false, t), prompt)[1].1;
            c.len() >= prompt.len() && c.subrange(c.len() - prompt.len(), c.len() as int) == prompt
        }),
{
    let parts = plain_lines(t);
    assert(parts[i] == plain(t[i]));
    lemma_join_contains_parts(parts, "\n"@, i);
    let text = plain_text(t);
    let c = text + "\n\n---\n\n"@ + prompt;
    let off = choose|off: int| occurs_at(text, plain(t[i]), off);
    assert(c.subrange(off, off + plain(t[i]).len()) =~= text.subrange(off, off + plain(t[i]).len()));
    assert(occurs_at(c, plain(t[i]), off));
    assert(c.subrange(c.len() - prompt.len(), c.len() as int) =~= prompt);
    assert(ask_request(spec_context(false, t), prompt)[1].1 == c);
}

/// After `context clear` the next `ask` starts fresh: its request carries
/// no transcript, with or without `--fresh`.
pub proof fn lemma_ask_after_clear_has_no_context(t: Seq<EntryView>, fresh: bool, prompt: Seq<char>)
    ensures
        ask_request(spec_context(fresh, context_effect(t, ContextCommand::Clear)), prompt)
            == ask_request(None, prompt),
        ask_request(None, prompt)[1] == (Role::User, prompt),
{
}

} // verus!
