use lyra::command::{parse, Command};

#[test]
fn parse_play_with_index() {
    assert_eq!(parse("play 3"), Command::Play(3));
}

#[test]
fn parse_play_with_leading_whitespace() {
    assert_eq!(parse("  play 1  "), Command::Play(1));
}

#[test]
fn parse_search_multi_word() {
    assert_eq!(parse("search hello world"), Command::Search("hello world".to_string()));
}

#[test]
fn parse_scan_no_arg() {
    assert_eq!(parse("scan"), Command::Scan(None));
}

#[test]
fn parse_scan_with_dir() {
    assert_eq!(parse("scan ~/Music"), Command::Scan(Some("~/Music".to_string())));
}

#[test]
fn parse_quit() {
    assert_eq!(parse("quit"), Command::Quit);
}

#[test]
fn parse_exit_alias() {
    assert_eq!(parse("exit"), Command::Quit);
}

#[test]
fn parse_unknown_command() {
    match parse("frobble") {
        Command::Unknown(_) => {}
        other => panic!("expected Unknown, got {other:?}"),
    }
}

#[test]
fn parse_list_default() {
    assert_eq!(parse("list"), Command::List(30));
}

#[test]
fn parse_list_with_n() {
    assert_eq!(parse("list 5"), Command::List(5));
}

#[test]
fn parse_pause_resume_stop() {
    assert_eq!(parse("pause"), Command::Pause);
    assert_eq!(parse("resume"), Command::Resume);
    assert_eq!(parse("stop"), Command::Stop);
}

#[test]
fn parse_next_prev() {
    assert_eq!(parse("next"), Command::Next);
    assert_eq!(parse("prev"), Command::Prev);
    assert_eq!(parse("previous"), Command::Prev);
}

#[test]
fn parse_status_and_help() {
    assert_eq!(parse("status"), Command::Status);
    assert_eq!(parse("help"), Command::Help);
    assert_eq!(parse("?"), Command::Help);
}

#[test]
fn parse_case_insensitive() {
    assert_eq!(parse("PLAY 2"), Command::Play(2));
    assert_eq!(parse("QUIT"), Command::Quit);
}

#[test]
fn parse_play_zero_is_unknown() {
    match parse("play 0") {
        Command::Unknown(_) => {}
        other => panic!("expected Unknown for play 0, got {other:?}"),
    }
}

#[test]
fn parse_play_no_arg_is_unknown() {
    match parse("play") {
        Command::Unknown(_) => {}
        other => panic!("expected Unknown for `play` with no arg, got {other:?}"),
    }
}

// ── further cases ───────────────────────────────────────────────────────────

#[test]
fn unknown_verb_is_reported_lowercased() {
    assert_eq!(parse("FrObBle x"), Command::Unknown("frobble".to_string()));
}

#[test]
fn play_error_message_quotes_the_argument() {
    assert_eq!(
        parse("play abc"),
        Command::Unknown("play requires a positive integer, got \"abc\"".to_string())
    );
    assert_eq!(
        parse("play"),
        Command::Unknown("play requires a positive integer, got \"\"".to_string())
    );
}

#[test]
fn search_without_query_is_unknown() {
    assert_eq!(parse("search   "), Command::Unknown("search requires a query".to_string()));
}

#[test]
fn list_with_garbage_falls_back_to_default() {
    assert_eq!(parse("list many"), Command::List(30));
    assert_eq!(parse("list -3"), Command::List(30));
    assert_eq!(parse("list +7"), Command::List(7));
    assert_eq!(parse("list 99999999999999999999999"), Command::List(30));
}

#[test]
fn tabs_separate_verb_and_argument() {
    assert_eq!(parse("\tplay\t\t12 "), Command::Play(12));
    assert_eq!(parse("q"), Command::Quit);
}

#[test]
fn empty_line_is_unknown_empty() {
    assert_eq!(parse("   "), Command::Unknown(String::new()));
}

#[test]
fn non_ascii_verbs_are_lowercased_fully() {
    assert_eq!(parse("ÉXIT now"), Command::Unknown("éxit".to_string()));
    assert_eq!(parse("  PaUsE  "), Command::Pause);
    assert_eq!(parse("SEARCH Tycho"), Command::Search("Tycho".to_string()));
}

#[test]
fn ascii_case_inside_a_non_ascii_verb_does_not_matter() {
    assert_eq!(parse("ÉxIt"), parse("ÉXIT"));
    assert_eq!(parse("  ÉxIt "), Command::Unknown("éxit".to_string()));
}
