use clank::ask::{AskBuiltin, AskUsageError};
use clank::context::ContentType;
use clank::outcome::{provider_failure, ProviderError, Role};
use clank::transcript::{take_pending_response, PendingResponse, Transcript, TranscriptEntry};

fn args(v: &[&str]) -> Vec<String> {
    v.iter().map(|s| s.to_string()).collect()
}

#[test]
fn ask_parse_flags_and_words() {
    let a = AskBuiltin::parse_args(&args(&["ask", "--fresh", "what", "is", "this"])).unwrap_or_else(|_| panic!("valid"));
    assert!(a.fresh);
    assert_eq!(a.words, args(&["what", "is", "this"]));
    let b = AskBuiltin::parse_args(&args(&["ask", "hello", "--no-transcript"])).unwrap_or_else(|_| panic!("valid"));
    assert!(b.fresh);
    assert_eq!(b.words, args(&["hello"]));
    let c = AskBuiltin::parse_args(&args(&["ask"])).unwrap_or_else(|_| panic!("valid"));
    assert!(!c.fresh && c.words.is_empty());
}

#[test]
fn ask_unknown_flag_is_usage_error() {
    match AskBuiltin::parse_args(&args(&["ask", "hi", "--model", "x"])) {
        Err(AskUsageError::UnknownFlag(f)) => assert_eq!(f, "--model"),
        _ => panic!("expected unknown flag"),
    }
    assert!(matches!(AskBuiltin::parse_args(&args(&["ask", "-"])), Err(AskUsageError::UnknownFlag(_))));
}

#[test]
fn ask_prompt_assembly() {
    let words = args(&["summarize", "this"]);
    assert_eq!(AskBuiltin::prompt(&words, None).ok(), Some("summarize this".to_owned()));
    assert_eq!(AskBuiltin::prompt(&words, Some("log line\n\n")).ok(), Some("summarize this\nlog line".to_owned()));
    assert_eq!(AskBuiltin::prompt(&vec![], Some("only stdin\n")).ok(), Some("only stdin".to_owned()));
    assert_eq!(AskBuiltin::prompt(&words, Some("\n\n")).ok(), Some("summarize this".to_owned()));
    assert!(matches!(AskBuiltin::prompt(&vec![], None), Err(AskUsageError::NoPrompt)));
    assert!(matches!(AskBuiltin::prompt(&vec![], Some("\n")), Err(AskUsageError::NoPrompt)));
}

#[test]
fn ask_request_includes_transcript_unless_fresh() {
    let mut t = Transcript::new();
    t.push(TranscriptEntry::command("echo seed", 1));
    t.push(TranscriptEntry::output("seed", 1));
    let with = AskBuiltin::request(false, &t, "what is this");
    assert_eq!(with.len(), 2);
    assert_eq!(with[0].role, Role::System);
    assert!(with[0].content.contains("clank.sh"));
    assert_eq!(with[1].role, Role::User);
    assert_eq!(with[1].content, "$ echo seed\nseed\n\n---\n\nwhat is this");
    let fresh = AskBuiltin::request(true, &t, "hello");
    assert_eq!(fresh[1].content, "hello");
    let empty = AskBuiltin::request(false, &Transcript::new(), "hello");
    assert_eq!(empty[1].content, "hello");
}

#[test]
fn ask_finish_success_sets_pending() {
    let mut p = PendingResponse::new();
    let o = AskBuiltin::finish(Ok("mock ai response".to_owned()), &mut p);
    assert_eq!((o.exit_code, o.stdout.as_str(), o.stderr.as_str()), (0, "mock ai response\n", ""));
    assert_eq!(take_pending_response(&mut p), Some("mock ai response".to_owned()));
}

#[test]
fn ask_finish_errors_map_exit_codes() {
    let mut p = PendingResponse::new();
    let o = AskBuiltin::finish(Err(ProviderError::NotConfigured("no config".to_owned())), &mut p);
    assert_eq!((o.exit_code, o.stderr.as_str()), (2, "ask: no config\n"));
    let o = AskBuiltin::finish(Err(ProviderError::Status(401)), &mut p);
    assert_eq!((o.exit_code, o.stderr.as_str()), (2, "ask: authentication failed (check api key)\n"));
    let o = AskBuiltin::finish(Err(ProviderError::Transport("refused".to_owned())), &mut p);
    assert_eq!((o.exit_code, o.stderr.as_str()), (4, "ask: provider transport error: refused\n"));
    let o = AskBuiltin::finish(Err(ProviderError::Parse("bad json".to_owned())), &mut p);
    assert_eq!(o.exit_code, 4);
    assert_eq!(take_pending_response(&mut p), None);
}

#[test]
fn provider_failure_outcome() {
    let o = provider_failure("ask", &ProviderError::NotConfigured("missing ask.toml".to_owned()));
    assert_eq!((o.exit_code, o.stdout.as_str(), o.stderr.as_str()), (2, "", "ask: missing ask.toml\n"));
}

#[test]
fn ask_help_content() {
    assert_eq!(AskBuiltin::get_content("ask", ContentType::DetailedHelp), "usage: ask [--fresh|--no-transcript] [prompt...]\n");
    assert_eq!(AskBuiltin::get_content("ask", ContentType::ShortDescription), "ask - invoke the configured AI model\n");
}

#[test]
fn ask_usage_outcomes_exit_2() {
    let o = AskBuiltin::usage_outcome(&AskUsageError::UnknownFlag("--unknown-flag".to_owned()));
    assert_eq!(o.exit_code, 2);
    assert_eq!(o.stdout, "");
    assert_eq!(o.stderr, "ask: unknown flag \"--unknown-flag\"\nusage: ask [--fresh|--no-transcript] [prompt...]\n");
    let o = AskBuiltin::usage_outcome(&AskUsageError::NoPrompt);
    assert_eq!(o.exit_code, 2);
    assert_eq!(o.stderr, "ask: no prompt provided\nusage: ask [--fresh|--no-transcript] [prompt...]\n");
}

#[test]
fn ask_without_prompt_words_is_no_prompt() {
    let a = AskBuiltin::parse_args(&args(&["ask", "--fresh"])).unwrap_or_else(|_| panic!("valid"));
    match AskBuiltin::prompt(&a.words, None) {
        Err(e) => assert_eq!(AskBuiltin::usage_outcome(&e).exit_code, 2),
        Ok(_) => panic!("expected no prompt"),
    }
}
