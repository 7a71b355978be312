use clank::record::{
    command_text_for_record, is_inspection_command, is_self_erasing_command, record_statement,
};
use clank::transcript::{take_pending_response, PendingResponse, Transcript, TranscriptEntry};

fn entries(t: &Transcript) -> Vec<(&'static str, String)> {
    t.entries().iter().map(|e| (e.kind.tag(), e.kind.text().to_owned())).collect()
}

#[test]
fn take_pending_response_returns_and_clears() {
    let mut cell = PendingResponse::new();
    assert_eq!(take_pending_response(&mut cell), None);
    cell.set("answer".to_owned());
    assert_eq!(take_pending_response(&mut cell), Some("answer".to_owned()));
    assert_eq!(take_pending_response(&mut cell), None);
}

#[test]
fn transcript_push_clear_trim() {
    let mut t = Transcript::new();
    assert!(t.is_empty());
    t.push(TranscriptEntry::command("a", 1));
    t.push(TranscriptEntry::output("b", 2));
    t.push(TranscriptEntry::ai_response("c".to_owned(), 3));
    assert_eq!(t.len(), 3);
    t.trim(1);
    assert_eq!(entries(&t), vec![("output", "b".to_owned()), ("ai_response", "c".to_owned())]);
    t.trim(0);
    assert_eq!(t.len(), 2);
    t.trim(5);
    assert!(t.is_empty());
    t.push(TranscriptEntry::command("x", 4));
    t.clear();
    assert!(t.is_empty());
}

#[test]
fn transcript_renderings() {
    let mut t = Transcript::new();
    assert_eq!(t.plain_text(), "");
    assert_eq!(t.show(false), "");
    t.push(TranscriptEntry::command("echo seed", 1700000000));
    t.push(TranscriptEntry::output("seed", 0));
    assert_eq!(t.plain_text(), "$ echo seed\nseed");
    assert_eq!(t.show(false), "$ echo seed\nseed\n");
    assert_eq!(t.show(true), "[1700000000] $ echo seed\n[0] seed\n");
    assert_eq!(t.entries()[0].display_with_timestamps(), "[1700000000] $ echo seed");
}

#[test]
fn self_erasing_and_inspection_classification() {
    assert!(is_self_erasing_command("context clear"));
    assert!(is_self_erasing_command("  context trim 3 "));
    assert!(is_self_erasing_command("context trim"));
    assert!(!is_self_erasing_command("context clearer"));
    assert!(!is_self_erasing_command("context show"));
    assert!(is_inspection_command("context show --timestamps"));
    assert!(is_inspection_command("context summarize"));
    assert!(is_inspection_command("ask hello"));
    assert!(is_inspection_command("\task"));
    assert!(!is_inspection_command("asking"));
    assert!(!is_inspection_command("echo ask"));
}

#[test]
fn recording_command_and_output() {
    let mut t = Transcript::new();
    let mut p = PendingResponse::new();
    record_statement(&mut t, &mut p, "echo seed", "seed\n\n", 1);
    assert_eq!(entries(&t), vec![("command", "echo seed".to_owned()), ("output", "seed".to_owned())]);
}

#[test]
fn recording_skips_empty_output() {
    let mut t = Transcript::new();
    let mut p = PendingResponse::new();
    record_statement(&mut t, &mut p, "true", "", 1);
    assert_eq!(entries(&t), vec![("command", "true".to_owned())]);
}

#[test]
fn recording_ask_keeps_response_not_output() {
    let mut t = Transcript::new();
    let mut p = PendingResponse::new();
    p.set("mock ai response".to_owned());
    record_statement(&mut t, &mut p, "ask hello", "mock ai response\n", 1);
    assert_eq!(
        entries(&t),
        vec![("command", "ask hello".to_owned()), ("ai_response", "mock ai response".to_owned())]
    );
    assert_eq!(take_pending_response(&mut p), None);
}

#[test]
fn recording_ask_without_response_records_command_only() {
    let mut t = Transcript::new();
    let mut p = PendingResponse::new();
    record_statement(&mut t, &mut p, "ask", "", 1);
    assert_eq!(entries(&t), vec![("command", "ask".to_owned())]);
}

#[test]
fn recording_inspection_output_is_dropped() {
    let mut t = Transcript::new();
    let mut p = PendingResponse::new();
    record_statement(&mut t, &mut p, "context show", "$ echo seed\nseed\n", 1);
    assert_eq!(entries(&t), vec![("command", "context show".to_owned())]);
}

#[test]
fn recording_self_erasing_records_nothing_and_keeps_pending() {
    let mut t = Transcript::new();
    let mut p = PendingResponse::new();
    p.set("kept".to_owned());
    record_statement(&mut t, &mut p, "context clear", "", 1);
    record_statement(&mut t, &mut p, "context trim 2", "", 1);
    assert!(t.is_empty());
    assert_eq!(take_pending_response(&mut p), Some("kept".to_owned()));
}

#[test]
fn command_text_without_rules_is_verbatim() {
    assert_eq!(command_text_for_record("curl --token abc http://x"), "curl --token abc http://x");
    assert_eq!(command_text_for_record(""), "");
}
