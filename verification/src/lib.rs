//! A verified core for an AI-native shell: command scopes, the session
//! transcript, transcript recording rules, redaction, the `context` and `ask`
//! builtins' decisions, statement splitting and the REPL's control flow.

pub mod text;
pub mod scope;
pub mod transcript;
pub mod redact;
pub mod record;
pub mod session;
pub mod outcome;
pub mod context;
pub mod ask;
pub mod http;
