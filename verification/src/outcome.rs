//! Exit codes, builtin outcomes, model-provider messages and errors, and how
//! a provider's answer becomes a builtin's outcome.

use vstd::prelude::*;
use crate::text::{append_str, decimal, push_decimal};

verus! {

/// Exit code of a successful command.
pub const EXIT_SUCCESS: u8 = 0;

/// Exit code for invalid usage or bad arguments.
pub const EXIT_INVALID_USAGE: u8 = 2;

/// Exit code when a remote call (model provider, HTTP) failed.
pub const EXIT_REMOTE_ERROR: u8 = 4;

/// What a builtin produced: its exit code and the text it writes to
/// standard output and standard error.
pub struct CommandOutcome {
    pub exit_code: u8,
    pub stdout: String,
    pub stderr: String,
}

/// The role of a message sent to a model.
#[derive(Debug, Clone, Copy, PartialEq, Eq, Structural)]
pub enum Role {
    System,
    User,
    Assistant,
}

/// A message sent to a model.
pub struct Message {
    pub role: Role,
    pub content: String,
}

/// The mathematical content of a message.
pub type MessageView = (Role, Seq<char>);

impl View for Message {
    type V = MessageView;

    open spec fn view(&self) -> MessageView {
        (self.role, self.content@)
    }
}

/// The views of a sequence of messages.
pub open spec fn message_views(s: Seq<Message>) -> Seq<MessageView> {
    s.map_values(|m: Message| m@)
}

/// Why a model provider could not answer.
pub enum ProviderError {
    /// No provider is configured; the text says what is missing.
    NotConfigured(String),
    /// The provider answered with a non-success HTTP status.
    Status(u16),
    /// The request could not be delivered or the answer not received.
    Transport(String),
    /// The answer could not be understood.
    Parse(String),
}

/// The mathematical content of a provider error.
pub enum ProviderErrorView {
    NotConfigured(Seq<char>),
    Status(u16),
    Transport(Seq<char>),
    Parse(Seq<char>),
}

impl View for ProviderError {
    type V = ProviderErrorView;

    open spec fn view(&self) -> ProviderErrorView {
        match self {
            ProviderError::NotConfigured(m) => ProviderErrorView::NotConfigured(m@),
            ProviderError::Status(c) => ProviderErrorView::Status(*c),
            ProviderError::Transport(m) => ProviderErrorView::Transport(m@),
            ProviderError::Parse(m) => ProviderErrorView::Parse(m@),
        }
    }
}

/// The exit code for a provider failure: missing configuration and
/// rejected credentials (401) are usage errors, everything else is a
/// failed remote call.
pub open spec fn provider_exit_code(e: ProviderErrorView) -> u8 {
    match e {
        ProviderErrorView::NotConfigured(_) => EXIT_INVALID_USAGE,
        ProviderErrorView::Status(c) => if c == 401 {
            EXIT_INVALID_USAGE
        } else {
            EXIT_REMOTE_ERROR
        },
        _ => EXIT_REMOTE_ERROR,
    }
}

/// Only missing configuration and rejected credentials (HTTP 401) are
/// usage errors (exit 2); every other provider failure, any other status
/// among them, is a remote error (exit 4).
pub proof fn lemma_provider_exit_codes(e: ProviderErrorView)
    ensures
        provider_exit_code(e) == 2 <==> (e is NotConfigured || e == ProviderErrorView::Status(401)),
        provider_exit_code(e) != 2 ==> provider_exit_code(e) == 4,
        forall|c: u16| c != 401 ==> #[trigger] provider_exit_code(ProviderErrorView::Status(c)) == 4,
{
}

/// How a provider error reads on its own.
pub open spec fn provider_error_text(e: ProviderErrorView) -> Seq<char> {
    match e {
        ProviderErrorView::NotConfigured(m) => m,
        ProviderErrorView::Status(c) => "provider returned HTTP status "@ + decimal(c as nat),
        ProviderErrorView::Transport(m) => "provider transport error: "@ + m,
        ProviderErrorView::Parse(m) => "provider response could not be parsed: "@ + m,
    }
}

/// How a failed completion is described to the user: rejected credentials
/// get a hint, any other error reads as itself.
pub open spec fn provider_message(e: ProviderErrorView) -> Seq<char> {
    match e {
        ProviderErrorView::Status(c) => if c == 401 {
            "authentication failed (check api key)"@
        } else {
            provider_error_text(e)
        },
        _ => provider_error_text(e),
    }
}

/// The exit code when no provider could be set up: missing configuration
/// is a usage error, anything else a failed remote call.
pub open spec fn setup_exit_code(e: ProviderErrorView) -> u8 {
    match e {
        ProviderErrorView::NotConfigured(_) => EXIT_INVALID_USAGE,
        _ => EXIT_REMOTE_ERROR,
    }
}

/// The line written to standard error for a failure of `command`.
pub open spec fn failure_line(command: Seq<char>, message: Seq<char>) -> Seq<char> {
    command + ": "@ + message + "\n"@
}

impl ProviderError {
    /// The exit code for this failure.
    pub fn exit_code(&self) -> (c: u8)
        ensures
            c == provider_exit_code(self@),
    {
        match self {
            ProviderError::NotConfigured(_) => EXIT_INVALID_USAGE,
            ProviderError::Status(c) => if *c == 401 {
                EXIT_INVALID_USAGE
            } else {
                EXIT_REMOTE_ERROR
            },
            _ => EXIT_REMOTE_ERROR,
        }
    }

    /// How this error reads on its own.
    pub fn text(&self) -> (m: String)
        ensures
            m@ == provider_error_text(self@),
    {
        match self {
            ProviderError::NotConfigured(m) => m.as_str().to_owned(),
            ProviderError::Status(c) => {
                let mut m = "provider returned HTTP status ".to_owned();
                push_decimal(&mut m, *c as u64);
                m
            },
            ProviderError::Transport(t) => {
                let mut m = "provider transport error: ".to_owned();
                append_str(&mut m, t.as_str());
                m
            },
            ProviderError::Parse(t) => {
                let mut m = "provider response could not be parsed: ".to_owned();
                append_str(&mut m, t.as_str());
                m
            },
        }
    }

    /// How this failure of a completion is described to the user.
    pub fn message(&self) -> (m: String)
        ensures
            m@ == provider_message(self@),
    {
        match self {
            ProviderError::Status(c) => {
                if *c == 401 {
                    "authentication failed (check api key)".to_owned()
                } else {
                    self.text()
                }
            },
            _ => self.text(),
        }
    }
}

/// The outcome of a builtin named `command` that failed with `e`.
pub fn provider_failure(command: &str, e: &ProviderError) -> (o: CommandOutcome)
    ensures
        o.exit_code == provider_exit_code(e@),
        o.stdout@ == Seq::<char>::empty(),
        o.stderr@ == failure_line(command@, provider_message(e@)),
{
    let mut err = command.to_owned();
    append_str(&mut err, ": ");
    let m = e.message();
    append_str(&mut err, m.as_str());
    append_str(&mut err, "\n");
    CommandOutcome { exit_code: e.exit_code(), stdout: String::new(), stderr: err }
}

/// The outcome of a builtin named `command` when no provider could be set
/// up: the error on standard error, exit code 2 for missing configuration
/// and 4 for anything else.
pub fn setup_failure(command: &str, e: &ProviderError) -> (o: CommandOutcome)
    ensures
        o.exit_code == setup_exit_code(e@),
        o.stdout@ == Seq::<char>::empty(),
        o.stderr@ == failure_line(command@, provider_error_text(e@)),
{
    let mut err = command.to_owned();
    append_str(&mut err, ": ");
    let m = e.text();
    append_str(&mut err, m.as_str());
    append_str(&mut err, "\n");
    let code = match e {
        ProviderError::NotConfigured(_) => EXIT_INVALID_USAGE,
        _ => EXIT_REMOTE_ERROR,
    };
    CommandOutcome { exit_code: code, stdout: String::new(), stderr: err }
}

// ---------------------------------------------------------------------------
// Quoting for messages
// ---------------------------------------------------------------------------

/// A printable ASCII character that `Debug` leaves as it is in a string.
pub open spec fn is_plain_ascii(c: char) -> bool {
    0x20 <= c as u32 <= 0x7E && c != '"' && c != '\\'
}

/// The `Debug` rendering of a string: in double quotes, with escapes.
pub uninterp spec fn debug_quoted(s: Seq<char>) -> Seq<char>;

/// The `Debug` rendering of `s` (`format!("{s:?}")`): the quoted, escaped
/// string. A string of printable ASCII characters other than `"` and `\`
/// is rendered as itself between double quotes.
#[verifier::external_body]
pub(crate) fn debug_str(s: &str) -> (r: String)
    ensures
        r@ == debug_quoted(s@),
        (forall|i: int| 0 <= i < s@.len() ==> is_plain_ascii(#[trigger] s@[i])) ==> r@ == "\""@
            + s@ + "\""@,
{
    format!("{s:?}")
}

/// The outcome of a builtin named `command` once the provider has answered:
/// the answer on its own line and success, or the failure.
pub fn completion_outcome(command: &str, result: Result<String, ProviderError>) -> (o:
    CommandOutcome)
    ensures
        match result {
            Ok(text) => o.exit_code == EXIT_SUCCESS && o.stdout@ == text@ + "\n"@ && o.stderr@
                == Seq::<char>::empty(),
            Err(e) => o.exit_code == provider_exit_code(e@) && o.stdout@ == Seq::<char>::empty()
                && o.stderr@ == failure_line(command@, provider_message(e@)),
        },
{
    match result {
        Ok(text) => {
            let mut out = text;
            append_str(&mut out, "\n");
            CommandOutcome { exit_code: EXIT_SUCCESS, stdout: out, stderr: String::new() }
        },
        Err(e) => provider_failure(command, &e),
    }
}

} // verus!
