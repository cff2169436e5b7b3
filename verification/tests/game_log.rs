use log_sanitizer::parsers::game::{
    category_of, parse_line, process_game_log, Category, LineClassifier, Reason, RedactionOutcome,
};
use std::borrow::Cow;

#[test]
fn private_admin_lines_are_censored() {
    assert_eq!(
        parse_line("[12:00:00] ADMINPRIVATE: secret stuff"),
        "-censored(private logtype)-"
    );
}

#[test]
fn sql_lines_are_censored() {
    assert_eq!(parse_line("[12:00:00] SQL: DELETE FROM x"), "-censored(sql logs)-");
}

#[test]
fn topic_lines_are_censored() {
    assert_eq!(
        parse_line("[12:00:00] TOPIC: \"ping\", from:1.2.3.4"),
        "-censored(world_topic logs)-"
    );
}

#[test]
fn line_without_bracket_is_censored() {
    assert_eq!(parse_line("not a log line"), "-censored(no_ts_start)-");
    assert_eq!(parse_line("  12:00:00] GAME: x"), "-censored(no_ts_start)-");
}

#[test]
fn blank_lines_are_censored() {
    assert_eq!(parse_line(""), "-censored(empty_line)-");
    assert_eq!(parse_line("   "), "-censored(empty_line)-");
    assert_eq!(parse_line(" \t\r\u{a0}\u{3000} "), "-censored(empty_line)-");
}

#[test]
fn missing_closing_bracket_shares_the_colon_reason() {
    assert_eq!(parse_line("[12:00:00 GAME: x"), "-censored(no_category_colon)-");
    assert_eq!(parse_line("["), "-censored(no_category_colon)-");
}

#[test]
fn timestamp_must_have_one_of_two_shapes() {
    assert_eq!(parse_line("[12:00] GAME: x"), "-censored(no_ts_regex_match)-");
    assert_eq!(parse_line("[] GAME: x"), "-censored(no_ts_regex_match)-");
    assert_eq!(parse_line("[2023-11-01 12:00:00] GAME: x"), "-censored(no_ts_regex_match)-");
    assert_eq!(parse_line("[12:00:00.123] GAME: x"), "-censored(no_ts_regex_match)-");
    assert_eq!(parse_line("[2023-11-01 12:00:00.1234] GAME: x"), "-censored(no_ts_regex_match)-");
    assert_eq!(parse_line("[12:00:00] GAME: x"), "[12:00:00] GAME: x");
    assert_eq!(
        parse_line("[2023-11-01 12:00:00.123] GAME: x"),
        "[2023-11-01 12:00:00.123] GAME: x"
    );
    assert_eq!(
        parse_line("[23-11-01 12:00:00.1.22.333] GAME: x"),
        "[23-11-01 12:00:00.1.22.333] GAME: x"
    );
}

#[test]
fn round_start_lines_pass_unchanged() {
    assert_eq!(
        parse_line("[12:00:00] Starting up round ID 12345."),
        "[12:00:00] Starting up round ID 12345."
    );
    assert_eq!(
        parse_line("[2023-11-01 12:00:00.000] Starting up round ID 7 from 10.0.0.1"),
        "[2023-11-01 12:00:00.000] Starting up round ID 7 from 10.0.0.1"
    );
}

#[test]
fn contents_must_begin_with_a_space() {
    assert_eq!(parse_line("[12:00:00]GAME: x"), "-censored(no_space_after_timestamp)-");
    assert_eq!(parse_line("[12:00:00]"), "-censored(no_space_after_timestamp)-");
}

#[test]
fn category_must_end_with_a_colon() {
    assert_eq!(parse_line("[12:00:00] GAME x"), "-censored(no_category_colon)-");
    assert_eq!(parse_line("[12:00:00]  GAME: x"), "-censored(no_category_colon)-");
    assert_eq!(parse_line("[12:00:00] GAME"), "-censored(no_category_colon)-");
}

#[test]
fn game_compat_takes_the_next_word_as_category() {
    assert_eq!(parse_line("[12:00:00] GAME-COMPAT:"), "-censored(game_compat_no_followup)-");
    assert_eq!(parse_line("[12:00:00] GAME-COMPAT:  SQL: x"), "-censored(game_compat_no_followup)-");
    assert_eq!(parse_line("[12:00:00] GAME-COMPAT: SQL: select 1"), "-censored(sql logs)-");
    assert_eq!(
        parse_line("[12:00:00] GAME-COMPAT: SAY: hello there"),
        "[12:00:00] GAME-COMPAT: SAY: hello there"
    );
    assert_eq!(parse_line("[12:00:00] GAME-COMPAT: SQLx select 1"), "-censored(sql logs)-");
    assert_eq!(
        parse_line("[12:00:00] GAME-COMPAT: SQL select 1"),
        "[12:00:00] GAME-COMPAT: SQL select 1"
    );
}

#[test]
fn game_prefix_is_stripped_from_the_category() {
    assert_eq!(parse_line("[12:00:00] GAME-SQL: x"), "-censored(sql logs)-");
    assert_eq!(parse_line("[12:00:00] GAME-GAME-TOPIC: x"), "-censored(world_topic logs)-");
    assert_eq!(parse_line("[12:00:00] GAME-ADMINPRIVATE: x"), "-censored(private logtype)-");
    assert_eq!(parse_line("[12:00:00] GAME-: x"), "[12:00:00] GAME-: x");
    assert_eq!(parse_line("[12:00:00] XGAME-SQL: x"), "[12:00:00] XGAME-SQL: x");
}

#[test]
fn access_login_hides_the_fourth_word_from_the_end() {
    assert_eq!(
        parse_line("[12:00:00] ACCESS: Login: Foo/(Foo) from 1.2.3.4-123456789 || BYOND v515"),
        "[12:00:00] ACCESS: Login: Foo/(Foo) from -censored(ip/cid)- || BYOND v515"
    );
    assert_eq!(
        parse_line("[12:00:00] ACCESS: Login: a b c d"),
        "[12:00:00] ACCESS: Login: -censored(ip/cid)- b c d"
    );
}

#[test]
fn access_login_is_rebuilt_from_its_words() {
    assert_eq!(
        parse_line("   [12:00:00] GAME-COMPAT: ACCESS: Login: who where id x y z  "),
        "[12:00:00] ACCESS: Login: who where -censored(ip/cid)- x y z"
    );
    assert_eq!(
        parse_line("[12:00:00] GAME-ACCESS: Login: who  id x y z"),
        "[12:00:00] GAME-ACCESS: Login: who  -censored(ip/cid)- x y z"
    );
}

#[test]
fn access_login_with_too_few_words_is_censored() {
    assert_eq!(
        parse_line("[12:00:00] ACCESS: Login: a b c"),
        "-censored(invalid connection data)-"
    );
    assert_eq!(parse_line("[12:00:00] ACCESS: Login:"), "-censored(invalid connection data)-");
}

#[test]
fn access_failed_is_censored_and_other_access_passes() {
    assert_eq!(
        parse_line("[12:00:00] ACCESS: Failed Login: Foo"),
        "-censored(invalid connection data)-"
    );
    assert_eq!(
        parse_line("[12:00:00] ACCESS: Logout: Foo/(Foo)"),
        "[12:00:00] ACCESS: Logout: Foo/(Foo)"
    );
    assert_eq!(parse_line("[12:00:00] ACCESS:"), "[12:00:00] ACCESS:");
}

#[test]
fn admin_chatter_is_censored() {
    let censored = "-censored(asay/apm/ahelp/notes/etc)-";
    assert_eq!(parse_line("[12:00:00] ADMIN: HELP: someone needs help"), censored);
    assert_eq!(parse_line("[12:00:00] ADMIN: PM: Foo->Bar: hi"), censored);
    assert_eq!(parse_line("[12:00:00] ADMIN: ASAY: Foo: hi"), censored);
    assert_eq!(parse_line("[12:00:00] ADMIN: <a href='x'>y</a>"), censored);
    assert_eq!(parse_line("[12:00:00] ADMIN: Foo/(Bar) : hello"), censored);
    assert_eq!(parse_line("[12:00:00] ADMIN: Foo/(Bar) added note to Baz"), censored);
    assert_eq!(parse_line("[12:00:00] ADMIN: Foo/(Bar) removed a note from Baz"), censored);
    assert_eq!(parse_line("[12:00:00] ADMIN: Foo/(Bar) has added a ban"), censored);
    assert_eq!(parse_line("[12:00:00] ADMIN: Foo/(Bar) has edited a ban"), censored);
    assert_eq!(parse_line("[12:00:00] ADMIN: Foo/(Bar) \"some words\""), censored);
    assert_eq!(parse_line("[12:00:00] GAME-ADMIN: HELP: x"), censored);
}

#[test]
fn other_admin_lines_pass() {
    assert_eq!(
        parse_line("[12:00:00] ADMIN: Foo/(Bar) jumped to the bridge"),
        "[12:00:00] ADMIN: Foo/(Bar) jumped to the bridge"
    );
    assert_eq!(parse_line("[12:00:00] ADMIN: the HELP: desk"), "[12:00:00] ADMIN: the HELP: desk");
    assert_eq!(parse_line("[12:00:00] ADMIN:"), "[12:00:00] ADMIN:");
}

#[test]
fn other_categories_pass_trimmed() {
    assert_eq!(parse_line("  [12:00:00] GAME: hello  world \t"), "[12:00:00] GAME: hello  world");
    assert_eq!(parse_line("[12:00:00] SAY: Ünïcödé ☃"), "[12:00:00] SAY: Ünïcödé ☃");
    assert_eq!(parse_line("[12:00:00] é: x"), "[12:00:00] é: x");
}

#[test]
fn classifier_can_be_used_for_many_lines() {
    let classifier = LineClassifier::new();
    assert_eq!(classifier.classify("[12:00:00] SQL: x"), "-censored(sql logs)-");
    assert_eq!(classifier.classify("[12:00:00] GAME: x"), "[12:00:00] GAME: x");
    let mut out: Vec<char> = vec!['>'];
    let line: Vec<char> = " nothing ".chars().collect();
    classifier.push_classified(&mut out, &line);
    let line: Vec<char> = " [12:00:00] GAME: x ".chars().collect();
    classifier.push_classified(&mut out, &line);
    let out: String = out.into_iter().collect();
    assert_eq!(out, ">-censored(no_ts_start)-[12:00:00] GAME: x");
}

#[test]
fn every_line_has_one_outcome() {
    let classifier = LineClassifier::new();
    let outcome = |line: &str| {
        let chars: Vec<char> = line.chars().collect();
        classifier.trimmed_outcome(&chars)
    };
    assert_eq!(outcome(""), RedactionOutcome::Censored(Reason::EmptyLine));
    assert_eq!(outcome("x"), RedactionOutcome::Censored(Reason::NoTsStart));
    assert_eq!(outcome("[x"), RedactionOutcome::Censored(Reason::NoCategoryColon));
    assert_eq!(outcome("[x] GAME: y"), RedactionOutcome::Censored(Reason::NoTsRegexMatch));
    assert_eq!(outcome("[12:00:00]GAME: y"), RedactionOutcome::Censored(Reason::NoSpaceAfterTimestamp));
    assert_eq!(outcome("[12:00:00] GAME y"), RedactionOutcome::Censored(Reason::NoCategoryColon));
    assert_eq!(outcome("[12:00:00] GAME-COMPAT:"), RedactionOutcome::Censored(Reason::GameCompatNoFollowup));
    assert_eq!(outcome("[12:00:00] ACCESS: Failed"), RedactionOutcome::Censored(Reason::InvalidConnectionData));
    assert_eq!(outcome("[12:00:00] ADMIN: PM: x"), RedactionOutcome::Censored(Reason::AdminChatter));
    assert_eq!(outcome("[12:00:00] ADMINPRIVATE: x"), RedactionOutcome::Censored(Reason::PrivateLogtype));
    assert_eq!(outcome("[12:00:00] TOPIC: x"), RedactionOutcome::Censored(Reason::WorldTopic));
    assert_eq!(outcome("[12:00:00] SQL: x"), RedactionOutcome::Censored(Reason::SqlLogs));
    assert_eq!(outcome("[12:00:00] GAME: x"), RedactionOutcome::Passthrough);
    assert_eq!(outcome("[12:00:00] Starting up round ID 1"), RedactionOutcome::Passthrough);
    assert_eq!(
        outcome("[12:00:00] ACCESS: Login: a b c d"),
        RedactionOutcome::Substituted("[12:00:00] ACCESS: Login: -censored(ip/cid)- b c d".to_string())
    );
}

#[test]
fn reasons_have_stable_placeholders() {
    assert_eq!(Reason::EmptyLine.as_str(), "-censored(empty_line)-");
    assert_eq!(Reason::NoTsStart.as_str(), "-censored(no_ts_start)-");
    assert_eq!(Reason::NoCategoryColon.as_str(), "-censored(no_category_colon)-");
    assert_eq!(Reason::NoTsRegexMatch.as_str(), "-censored(no_ts_regex_match)-");
    assert_eq!(Reason::NoSpaceAfterTimestamp.as_str(), "-censored(no_space_after_timestamp)-");
    assert_eq!(Reason::GameCompatNoFollowup.as_str(), "-censored(game_compat_no_followup)-");
    assert_eq!(Reason::InvalidConnectionData.as_str(), "-censored(invalid connection data)-");
    assert_eq!(Reason::AdminChatter.as_str(), "-censored(asay/apm/ahelp/notes/etc)-");
    assert_eq!(Reason::PrivateLogtype.as_str(), "-censored(private logtype)-");
    assert_eq!(Reason::WorldTopic.as_str(), "-censored(world_topic logs)-");
    assert_eq!(Reason::SqlLogs.as_str(), "-censored(sql logs)-");
}

#[test]
fn categories_are_told_by_their_exact_name() {
    let category = |name: &str| {
        let chars: Vec<char> = name.chars().collect();
        category_of(&chars)
    };
    assert_eq!(category("ACCESS"), Category::Access);
    assert_eq!(category("ADMIN"), Category::Admin);
    assert_eq!(category("ADMINPRIVATE"), Category::AdminPrivate);
    assert_eq!(category("TOPIC"), Category::Topic);
    assert_eq!(category("SQL"), Category::Sql);
    assert_eq!(category("sql"), Category::Other);
    assert_eq!(category("SQLS"), Category::Other);
    assert_eq!(category(""), Category::Other);
}

#[test]
fn a_line_that_passes_is_borrowed() {
    assert!(matches!(parse_line("  [12:00:00] GAME: é x  "), Cow::Borrowed("[12:00:00] GAME: é x")));
    assert!(matches!(parse_line("[12:00:00] SQL: x"), Cow::Borrowed("-censored(sql logs)-")));
    assert!(matches!(parse_line("[12:00:00] ACCESS: Login: a b c d"), Cow::Owned(_)));
}

#[test]
fn game_log_is_redacted_line_by_line() {
    let log = "[12:00:00] GAME: 10.0.0.1 connected\r\nnot a line\n\n[12:00:01] SQL: x".to_string();
    assert_eq!(
        process_game_log(log),
        "[12:00:00] GAME: -censored- connected\n-censored(no_ts_start)-\n-censored(empty_line)-\n-censored(sql logs)-\n"
    );
    assert_eq!(process_game_log(String::new()), "");
}
