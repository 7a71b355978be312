use clank::scope::{manifest_registry, redaction_rules_of, scope_of, ExecutionScope};

// Canonical (name, scope) table; compared order-independently with the registry.
const EXPECTED: &[(&str, ExecutionScope)] = &[
    (".", ExecutionScope::ParentShell),
    ("cd", ExecutionScope::ParentShell),
    ("exec", ExecutionScope::ParentShell),
    ("exit", ExecutionScope::ParentShell),
    ("export", ExecutionScope::ParentShell),
    ("source", ExecutionScope::ParentShell),
    ("unset", ExecutionScope::ParentShell),
    ("alias", ExecutionScope::ShellInternal),
    ("bg", ExecutionScope::ShellInternal),
    ("context", ExecutionScope::ShellInternal),
    ("fg", ExecutionScope::ShellInternal),
    ("jobs", ExecutionScope::ShellInternal),
    ("read", ExecutionScope::ShellInternal),
    ("type", ExecutionScope::ShellInternal),
    ("unalias", ExecutionScope::ShellInternal),
    ("wait", ExecutionScope::ShellInternal),
    ("ask", ExecutionScope::Subprocess),
    ("cat", ExecutionScope::Subprocess),
    ("curl", ExecutionScope::Subprocess),
    ("find", ExecutionScope::Subprocess),
    ("grep", ExecutionScope::Subprocess),
    ("ls", ExecutionScope::Subprocess),
];

#[test]
fn registry_matches_expected() {
    let registry = manifest_registry();
    let mut actual: Vec<(&str, ExecutionScope)> = registry.iter().map(|m| (m.name, m.scope)).collect();
    let mut expected: Vec<(&str, ExecutionScope)> = EXPECTED.to_vec();
    actual.sort_by_key(|e| e.0);
    expected.sort_by_key(|e| e.0);
    assert_eq!(actual, expected);
}

#[test]
fn unknown_command_returns_none() {
    assert_eq!(scope_of("unknown-command"), None);
}

#[test]
fn scope_of_every_registered_command_is_its_entry_scope() {
    for (name, scope) in EXPECTED {
        assert_eq!(scope_of(name), Some(*scope), "scope of {name}");
    }
}

#[test]
fn scope_of_is_exact_match_not_prefix() {
    assert_eq!(scope_of("c"), None);
    assert_eq!(scope_of("cdx"), None);
    assert_eq!(scope_of(""), None);
    assert_eq!(scope_of("CD"), None);
    assert_eq!(scope_of(" cd"), None);
}

#[test]
fn redaction_rules_are_empty_for_known_and_unknown_commands() {
    assert!(redaction_rules_of("curl").is_empty());
    assert!(redaction_rules_of("ask").is_empty());
    assert!(redaction_rules_of("unknown-command").is_empty());
}

#[test]
fn registry_names_are_distinct() {
    let registry = manifest_registry();
    let mut names: Vec<&str> = registry.iter().map(|m| m.name).collect();
    names.sort();
    names.dedup();
    assert_eq!(names.len(), registry.len());
}
