use clank::session::{clank_builtin_names, default_options, interactive_options};

#[test]
fn lib_default_options_is_non_interactive() {
    assert!(!default_options().interactive);
}

#[test]
fn lib_default_options_skips_profile() {
    assert!(default_options().no_profile);
}

#[test]
fn lib_default_options_skips_rc() {
    assert!(default_options().no_rc);
}

#[test]
fn lib_default_options_disables_editing() {
    assert!(default_options().no_editing);
}

#[test]
fn lib_default_options_shell_name_is_clank() {
    assert_eq!(default_options().shell_name, Some("clank".to_owned()));
}

#[test]
fn interactive_options_is_interactive() {
    assert!(interactive_options().interactive);
}

#[test]
fn interactive_options_skips_profile() {
    assert!(interactive_options().no_profile);
}

#[test]
fn interactive_options_skips_rc() {
    assert!(interactive_options().no_rc);
}

#[test]
fn interactive_options_disables_editing() {
    assert!(interactive_options().no_editing);
}

#[test]
fn interactive_options_shell_name_is_clank() {
    assert_eq!(interactive_options().shell_name, Some("clank".to_owned()));
}

#[test]
fn shell_builder_default_options_is_non_interactive() {
    assert!(!default_options().interactive);
}

#[test]
fn shell_builder_default_options_skips_profile() {
    assert!(default_options().no_profile);
}

#[test]
fn shell_builder_default_options_skips_rc() {
    assert!(default_options().no_rc);
}

#[test]
fn shell_builder_default_options_disables_editing() {
    assert!(default_options().no_editing);
}

#[test]
fn shell_builder_default_options_shell_name_is_clank() {
    assert_eq!(default_options().shell_name, Some("clank".to_owned()));
}

#[test]
fn clank_registers_context_and_ask() {
    assert_eq!(clank_builtin_names(), vec!["context", "ask"]);
}

#[test]
fn options_register_context_and_ask() {
    assert_eq!(default_options().builtins, vec!["context", "ask"]);
    assert_eq!(interactive_options().builtins, default_options().builtins);
}
