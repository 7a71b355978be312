use clank::context::{parse_usize, ContentType, ContextBuiltin, ContextCommand, ContextStep, ContextUsageError};
use clank::outcome::{ProviderError, Role};
use clank::transcript::{Transcript, TranscriptEntry};

fn args(v: &[&str]) -> Vec<String> {
    v.iter().map(|s| s.to_string()).collect()
}

fn seeded() -> Transcript {
    let mut t = Transcript::new();
    t.push(TranscriptEntry::command("echo seed", 5));
    t.push(TranscriptEntry::output("seed", 5));
    t.push(TranscriptEntry::command("true", 6));
    t
}

#[test]
fn parse_usize_matches_from_str() {
    for s in ["0", "7", "+7", "007", "18446744073709551615", "", "+", "-1", "-", " 1", "1 ", "1a", "99999999999999999999", "+-1", "١"] {
        assert_eq!(parse_usize(s), s.parse::<usize>().ok(), "input {s:?}");
    }
}

#[test]
fn context_parse_subcommands() {
    assert!(matches!(ContextBuiltin::parse(&args(&["context", "show"])), Ok(ContextCommand::Show { timestamps: false })));
    assert!(matches!(ContextBuiltin::parse(&args(&["context", "show", "x", "--timestamps"])), Ok(ContextCommand::Show { timestamps: true })));
    assert!(matches!(ContextBuiltin::parse(&args(&["context", "clear"])), Ok(ContextCommand::Clear)));
    assert!(matches!(ContextBuiltin::parse(&args(&["context", "trim", "3"])), Ok(ContextCommand::Trim(3))));
    assert!(matches!(ContextBuiltin::parse(&args(&["context", "summarize"])), Ok(ContextCommand::Summarize)));
}

#[test]
fn context_parse_errors() {
    assert!(matches!(ContextBuiltin::parse(&args(&["context"])), Err(ContextUsageError::MissingSubcommand)));
    assert!(matches!(ContextBuiltin::parse(&args(&["context", "trim"])), Err(ContextUsageError::MissingTrimCount)));
    match ContextBuiltin::parse(&args(&["context", "trim", "-1"])) {
        Err(ContextUsageError::InvalidTrimCount(s)) => assert_eq!(s, "-1"),
        _ => panic!("expected an invalid count"),
    }
    match ContextBuiltin::parse(&args(&["context", "bogus"])) {
        Err(ContextUsageError::UnknownSubcommand(s)) => assert_eq!(s, "bogus"),
        _ => panic!("expected an unknown subcommand"),
    }
}

#[test]
fn context_show_prints_without_changing() {
    let mut t = seeded();
    match ContextBuiltin::execute(&mut t, &args(&["context", "show"])) {
        ContextStep::Done(o) => {
            assert_eq!(o.exit_code, 0);
            assert_eq!(o.stdout, "$ echo seed\nseed\n$ true\n");
            assert_eq!(o.stderr, "");
        }
        _ => panic!("show should finish"),
    }
    assert_eq!(t.len(), 3);
}

#[test]
fn context_clear_and_trim_change_the_transcript() {
    let mut t = seeded();
    assert!(matches!(ContextBuiltin::execute(&mut t, &args(&["context", "trim", "2"])), ContextStep::Done(_)));
    assert_eq!(t.plain_text(), "$ true");
    assert!(matches!(ContextBuiltin::execute(&mut t, &args(&["context", "clear"])), ContextStep::Done(_)));
    assert!(t.is_empty());
}

#[test]
fn context_invalid_and_summarize_leave_transcript() {
    let mut t = seeded();
    match ContextBuiltin::execute(&mut t, &args(&["context", "trim", "x"])) {
        ContextStep::Done(o) => {
            assert_eq!(o.exit_code, 2);
            assert_eq!(o.stdout, "");
            assert_eq!(o.stderr, "context: trim: invalid argument \"x\": expected non-negative integer\n");
        }
        _ => panic!("malformed trim should finish with a usage error"),
    }
    assert!(matches!(ContextBuiltin::execute(&mut t, &args(&["context", "summarize"])), ContextStep::Summarize));
    assert_eq!(t.len(), 3);
}

#[test]
fn summary_request_and_outcomes() {
    assert!(ContextBuiltin::summary_request(&Transcript::new()).is_none());
    let m = ContextBuiltin::summary_request(&seeded()).expect("non-empty transcript");
    assert_eq!(m.len(), 2);
    assert_eq!(m[0].role, Role::System);
    assert!(m[0].content.starts_with("You are a summarization assistant."));
    assert_eq!(m[1].role, Role::User);
    assert_eq!(m[1].content, "$ echo seed\nseed\n$ true");
    let e = ContextBuiltin::empty_summary();
    assert_eq!((e.exit_code, e.stdout.as_str()), (0, "(transcript is empty)\n"));
    let ok = ContextBuiltin::summary_outcome(Ok("short".to_owned()));
    assert_eq!((ok.exit_code, ok.stdout.as_str(), ok.stderr.as_str()), (0, "short\n", ""));
    let auth = ContextBuiltin::summary_outcome(Err(ProviderError::Status(401)));
    assert_eq!(auth.exit_code, 2);
    assert_eq!(auth.stderr, "context summarize: authentication failed (check api key)\n");
    let remote = ContextBuiltin::summary_outcome(Err(ProviderError::Status(500)));
    assert_eq!(remote.exit_code, 4);
    assert_eq!(remote.stderr, "context summarize: provider returned HTTP status 500\n");
}

#[test]
fn context_help_content() {
    assert_eq!(ContextBuiltin::get_content("context", ContentType::ShortUsage), "usage: context show|clear|trim <n>|summarize\n");
    assert_eq!(ContextBuiltin::get_content("context", ContentType::ManPage), "usage: context show|clear|trim <n>|summarize\n");
    assert_eq!(ContextBuiltin::get_content("context", ContentType::ShortDescription), "context - manage the shell transcript\n");
}

#[test]
fn context_usage_errors_exit_2_with_messages() {
    let mut t = seeded();
    let cases: &[(&[&str], &str)] = &[
        (&["context"], "context: usage: context show|clear|trim <n>\n"),
        (&["context", "trim"], "context: trim: missing argument <n>\n"),
        (&["context", "trim", "-1"], "context: trim: invalid argument \"-1\": expected non-negative integer\n"),
        (&["context", "list"], "context: unknown subcommand \"list\": expected show, clear, trim, or summarize\n"),
        (&["context", "Show"], "context: unknown subcommand \"Show\": expected show, clear, trim, or summarize\n"),
        (&["context", "a\"b"], "context: unknown subcommand \"a\\\"b\": expected show, clear, trim, or summarize\n"),
    ];
    for (a, err) in cases {
        match ContextBuiltin::execute(&mut t, &args(a)) {
            ContextStep::Done(o) => {
                assert_eq!(o.exit_code, 2, "{a:?}");
                assert_eq!(o.stdout, "");
                assert_eq!(o.stderr, *err);
            }
            _ => panic!("expected a usage error for {a:?}"),
        }
    }
    assert_eq!(t.len(), 3);
}

#[test]
fn summarize_setup_failure_exit_codes() {
    let o = ContextBuiltin::setup_failure(&ProviderError::NotConfigured("no ask.toml".to_owned()));
    assert_eq!((o.exit_code, o.stdout.as_str(), o.stderr.as_str()), (2, "", "context summarize: no ask.toml\n"));
    let o = ContextBuiltin::setup_failure(&ProviderError::Status(401));
    assert_eq!((o.exit_code, o.stderr.as_str()), (4, "context summarize: provider returned HTTP status 401\n"));
    let o = ContextBuiltin::setup_failure(&ProviderError::Transport("down".to_owned()));
    assert_eq!(o.exit_code, 4);
}
