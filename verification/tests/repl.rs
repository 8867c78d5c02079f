use oxtub::repl::{strip_trailing_semicolons, ReplAction, ReplState};

#[test]
fn commands_are_recognized_at_the_start_of_a_statement() {
    let mut state = ReplState::new();
    assert!(state.is_start_of_statement());
    assert_eq!(state.on_line(".help\n"), ReplAction::Help);
    assert_eq!(state.on_line("  .tables  \n"), ReplAction::Tables);
    assert_eq!(state.on_line("\n"), ReplAction::Continue);
    assert_eq!(state.on_line(".quit\n"), ReplAction::Exit);
    assert_eq!(state.on_line(".exit\n"), ReplAction::Exit);
    assert!(state.is_start_of_statement());
}

#[test]
fn statements_run_once_they_end_with_a_semicolon() {
    let mut state = ReplState::new();
    assert_eq!(state.on_line("select id\n"), ReplAction::Continue);
    assert!(!state.is_start_of_statement());
    // Inside a statement a command is just more text.
    assert_eq!(state.on_line(".help\n"), ReplAction::Continue);
    assert_eq!(
        state.on_line("from users;;  \n"),
        ReplAction::Execute("select id\n.help\nfrom users".to_string())
    );
    assert!(state.is_start_of_statement());
}

#[test]
fn a_lone_semicolon_runs_nothing() {
    let mut state = ReplState::new();
    assert_eq!(state.on_line(" ; \n"), ReplAction::Continue);
    assert!(state.is_start_of_statement());
}

#[test]
fn strips_only_trailing_semicolons() {
    assert_eq!(strip_trailing_semicolons("a;b;;"), "a;b");
    assert_eq!(strip_trailing_semicolons(";;;"), "");
    assert_eq!(strip_trailing_semicolons("abc"), "abc");
}
