use clank::session::{checked_parse_statements, io_numbers_fit_in, parse_statements, statement_texts, LineAction, ParseOptions, ParsedStatement, RunState};

#[test]
fn parse_statements_function_def_is_one_statement() {
    let source = "f() { local v=inner; echo $v; }\nf\necho ${v:-outer}";
    let stmts = parse_statements(source, &ParseOptions::new());
    assert_eq!(stmts.len(), 3, "expected 3 statements: got {stmts:?}");
    assert!(
        stmts[0].contains("local v=inner") && stmts[0].contains("echo $v"),
        "function body should be present: {}",
        stmts[0]
    );
    assert_eq!(stmts[1], "f");
    assert_eq!(stmts[2], "echo ${v:-outer}");
}

#[test]
fn parse_statements_if_block_is_one_statement() {
    let source = "if true; then\n  echo yes\nfi";
    let stmts = parse_statements(source, &ParseOptions::new());
    assert_eq!(stmts.len(), 1, "if/fi should be one statement: got {stmts:?}");
}

#[test]
fn parse_statements_export_is_correct() {
    let source = "export FOO=hello\necho $FOO";
    let stmts = parse_statements(source, &ParseOptions::new());
    assert_eq!(stmts.len(), 2, "expected 2 statements: got {stmts:?}");
    assert_eq!(stmts[0], "export FOO=hello", "unexpected export stmt: {:?}", stmts[0]);
    assert_eq!(stmts[1], "echo $FOO");
}

#[test]
fn parse_statements_empty_is_empty() {
    let stmts = parse_statements("", &ParseOptions::new());
    assert!(stmts.is_empty());
}

#[test]
fn parse_statements_if_block_then_simple_command() {
    let stmts = parse_statements("if true; then\n  echo yes\nfi\necho after", &ParseOptions::new());
    assert_eq!(stmts.len(), 2, "got {stmts:?}");
    assert!(stmts[0].starts_with("if true; then"), "got {stmts:?}");
    assert_eq!(stmts[1], "echo after");
}

#[test]
fn parse_statements_unparsable_source_is_one_statement() {
    let source = "if true; then";
    let stmts = parse_statements(source, &ParseOptions::new());
    assert_eq!(stmts, vec![source.to_owned()]);
}

#[test]
fn statement_texts_uses_line_spans_and_trims() {
    let parsed = Some(vec![
        ParsedStatement { lines: Some((1, 1)), display: "ignored".to_owned() },
        ParsedStatement { lines: Some((2, 3)), display: "ignored".to_owned() },
    ]);
    let texts = statement_texts("  echo a  \r\nfor x in 1; do\n echo $x; done\n", &parsed);
    assert_eq!(texts, vec!["echo a".to_owned(), "for x in 1; do\n echo $x; done".to_owned()]);
}

#[test]
fn statement_texts_falls_back_to_display_when_span_unknown_or_out_of_range() {
    let parsed = Some(vec![
        ParsedStatement { lines: None, display: "  f ()\n{ :; }  ".to_owned() },
        ParsedStatement { lines: Some((5, 7)), display: " late ".to_owned() },
        ParsedStatement { lines: Some((1, 1)), display: "blank".to_owned() },
        ParsedStatement { lines: None, display: "   ".to_owned() },
    ]);
    let texts = statement_texts("   \nx", &parsed);
    assert_eq!(texts, vec!["f ()\n{ :; }".to_owned(), "late".to_owned(), "blank".to_owned()]);
}

#[test]
fn statement_texts_without_parse_is_whole_source() {
    assert_eq!(statement_texts("a b\nc", &None), vec!["a b\nc".to_owned()]);
    assert_eq!(statement_texts("", &None), vec![String::new()]);
}

#[test]
fn run_state_starts_at_zero_and_tracks_last_code() {
    let mut run = RunState::new();
    assert_eq!(run.last_exit_code, 0);
    assert!(!run.stopped);
    run.record_result(0, false);
    run.record_result(1, false);
    assert_eq!(run.last_exit_code, 1);
    assert!(!run.stopped);
    run.record_result(7, true);
    assert_eq!(run.last_exit_code, 7);
    assert!(run.stopped);
}

#[test]
fn on_line_stops_at_eof_skips_blank_and_strips_terminators() {
    let run = RunState::new();
    assert!(matches!(run.on_line(0, ""), LineAction::Stop));
    assert!(matches!(run.on_line(1, "\n"), LineAction::Skip));
    assert!(matches!(run.on_line(2, "\r\n"), LineAction::Skip));
    match run.on_line(8, "exit 7\r\n") {
        LineAction::Run(c) => assert_eq!(c, "exit 7"),
        _ => panic!("expected a command"),
    }
    match run.on_line(5, "true") {
        LineAction::Run(c) => assert_eq!(c, "true"),
        _ => panic!("expected a command"),
    }
    match run.on_line(6, " ls \n") {
        LineAction::Run(c) => assert_eq!(c, " ls "),
        _ => panic!("expected a command"),
    }
}

#[test]
fn oversized_redirect_number_is_refused() {
    let o = ParseOptions::new();
    let source = "echo a 99999999999>f\necho b";
    assert!(!io_numbers_fit_in(source, &o));
    assert_eq!(checked_parse_statements(source, &o), None);
    let continued = "echo a 99999\\\n999999>f";
    assert!(!io_numbers_fit_in(continued, &o));
    assert_eq!(checked_parse_statements(continued, &o), None);
    assert!(!io_numbers_fit_in("echo 2147483648<f", &o));
    assert!(!io_numbers_fit_in("cat 99999999999<<EOF\nx\nEOF\n", &o));
}

#[test]
fn fitting_redirect_numbers_are_parsed() {
    let o = ParseOptions::new();
    assert!(io_numbers_fit_in("echo a 2147483647>f", &o));
    assert!(io_numbers_fit_in("echo a 0000000000002>f", &o));
    assert!(io_numbers_fit_in("echo a 99999999999 >f", &o));
    assert!(io_numbers_fit_in("if true; then", &o));
    let stmts = parse_statements("echo a 2>f\necho b", &o);
    assert_eq!(stmts, vec!["echo a 2>f".to_owned(), "echo b".to_owned()]);
    assert_eq!(
        checked_parse_statements("echo a 2>f\necho b", &o),
        Some(vec!["echo a 2>f".to_owned(), "echo b".to_owned()])
    );
}

#[test]
fn large_numbers_in_quotes_comments_and_heredocs_are_split() {
    let o = ParseOptions::new();
    let quoted = "  echo '2147483648>'\necho b";
    assert!(io_numbers_fit_in(quoted, &o));
    assert_eq!(parse_statements(quoted, &o), vec!["echo '2147483648>'".to_owned(), "echo b".to_owned()]);
    let double = "echo \"99999999999>x\"\necho b";
    assert!(io_numbers_fit_in(double, &o));
    assert_eq!(parse_statements(double, &o), vec!["echo \"99999999999>x\"".to_owned(), "echo b".to_owned()]);
    let adjacent_quote = "echo \"99999999999\">f";
    assert!(io_numbers_fit_in(adjacent_quote, &o));
    let comment = "# 99999999999>x\necho b";
    assert!(io_numbers_fit_in(comment, &o));
    assert_eq!(parse_statements(comment, &o), vec!["echo b".to_owned()]);
    let heredoc = "cat <<EOF\n99999999999>x\nEOF\necho b\n";
    assert!(io_numbers_fit_in(heredoc, &o));
    assert_eq!(checked_parse_statements(heredoc, &o).map(|s| s.len()), Some(2));
}

fn drive_repl(input: &str) -> (u8, bool, Vec<String>) {
    let mut run = RunState::new();
    let mut ran = Vec::new();
    for line in input.split_inclusive('\n') {
        match run.on_line(line.len(), line) {
            LineAction::Stop => break,
            LineAction::Skip => continue,
            LineAction::Run(c) => {
                let (code, stop) = match c.as_str() {
                    "false" => (1, false),
                    "exit 3" => (3, true),
                    _ => (0, false),
                };
                ran.push(c);
                run.record_result(code, stop);
                if run.stopped {
                    break;
                }
            }
        }
    }
    (run.last_exit_code, run.stopped, ran)
}

#[test]
fn blank_repl_lines_keep_the_last_exit_code() {
    let plain = drive_repl("false\n");
    let padded = drive_repl("\nfalse\n\r\n\n");
    assert_eq!(plain, (1, false, vec!["false".to_owned()]));
    assert_eq!(padded, plain);
}

#[test]
fn repl_stops_at_exit() {
    let stopped = drive_repl("true\nexit 3\nfalse\n");
    assert_eq!(stopped, (3, true, vec!["true".to_owned(), "exit 3".to_owned()]));
}
