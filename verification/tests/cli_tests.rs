use postgrustql::cli::{cli_action, ends_response, is_prompt, CliAction};

#[test]
fn blank_lines_are_skipped() {
    assert_eq!(cli_action(""), CliAction::Skip);
    assert_eq!(cli_action("   \t"), CliAction::Skip);
}

#[test]
fn meta_commands_map_to_queries() {
    assert_eq!(cli_action("\\q"), CliAction::Quit);
    assert_eq!(cli_action("\\quit"), CliAction::Quit);
    assert_eq!(cli_action("\\l"), CliAction::Send("SELECT datname FROM pg_database;".to_string()));
    assert_eq!(cli_action(" \\list "), CliAction::Send("SELECT datname FROM pg_database;".to_string()));
    assert_eq!(cli_action("\\d"), CliAction::Send("SHOW TABLES;".to_string()));
    assert_eq!(cli_action("\\dt"), CliAction::Send("SHOW TABLES;".to_string()));
    assert_eq!(cli_action("\\d users"), CliAction::Send("\\d users".to_string()));
    assert_eq!(cli_action("\\?"), CliAction::Help);
    assert_eq!(cli_action("\\h"), CliAction::Help);
    assert_eq!(cli_action("\\help"), CliAction::Help);
    assert_eq!(cli_action("\\x"), CliAction::Unknown("\\x".to_string()));
}

#[test]
fn quit_and_exit_in_any_case() {
    assert_eq!(cli_action("quit"), CliAction::Quit);
    assert_eq!(cli_action("EXIT"), CliAction::Quit);
    assert_eq!(cli_action("  Quit  "), CliAction::Quit);
    assert_eq!(cli_action("quitter"), CliAction::Send("quitter".to_string()));
}

#[test]
fn queries_are_sent_trimmed() {
    assert_eq!(cli_action("  SELECT 1;  "), CliAction::Send("SELECT 1;".to_string()));
}

#[test]
fn prompts_end_with_hash_or_angle() {
    assert!(is_prompt("postgres=# "));
    assert!(is_prompt("postgrustql> "));
    assert!(!is_prompt("Welcome"));
    assert!(!is_prompt(""));
    assert!(ends_response("postgrustql> \n"));
    assert!(!ends_response("postgres=# "));
}
