use log_sanitizer::ongoing_round_protection::{
    parse_round_id, round_ids_from_servers, OngoingRoundProtection, OngoingRoundProtectionConfig,
    RoundError, Server, ServerData,
};

fn chars(s: &str) -> Vec<char> {
    s.chars().collect()
}

fn names(path: &[&str]) -> Vec<String> {
    path.iter().map(|s| s.to_string()).collect()
}

fn server(identifier: &str, round_id: Option<&str>) -> Server {
    Server {
        data: Some(ServerData {
            round_id: round_id.map(str::to_string),
            identifier: identifier.to_string(),
        }),
    }
}

fn protection(mapping: Option<Vec<(&str, &str)>>, servers: &[Server]) -> OngoingRoundProtection {
    let config = OngoingRoundProtectionConfig {
        serverinfo: "http://localhost/serverinfo.json".to_string(),
        paths_to_identifiers: mapping
            .map(|m| m.into_iter().map(|(k, v)| (k.to_string(), v.to_string())).collect()),
    };
    let mut protection = OngoingRoundProtection::new(config);
    assert_eq!(protection.update(&servers.to_vec()), Ok(()));
    protection
}

#[test]
fn round_numbers_parse_as_std_parses_them() {
    for sample in [
        "", "0", "7", "123", "+5", "+", "-1", "-0", "12a", "a12", " 1", "1 ", "00012", "1_000",
        "18446744073709551615", "18446744073709551616", "99999999999999999999999", "+018",
        "١٢٣", "1.5",
    ] {
        assert_eq!(parse_round_id(&chars(sample)), sample.parse::<u64>().ok(), "{sample:?}");
    }
    assert_eq!(parse_round_id(&chars("197406")), Some(197406));
}

#[test]
fn round_ids_come_from_servers_that_play_a_round() {
    let servers = vec![
        Server { data: None },
        server("idle", None),
        server("b", Some("10")),
        server("c", Some("12")),
        server("b", Some("11")),
    ];
    assert_eq!(
        round_ids_from_servers(&servers),
        Ok(vec![("b".to_string(), 11), ("c".to_string(), 12)])
    );
    assert_eq!(round_ids_from_servers(&Vec::new()), Ok(Vec::new()));
}

#[test]
fn unreadable_round_id_is_an_error() {
    let servers = vec![server("a", Some("10")), server("b", Some("ten")), server("c", Some("12"))];
    assert_eq!(round_ids_from_servers(&servers), Err(RoundError::InvalidRoundId));
    let servers = vec![server("a", Some("18446744073709551616"))];
    assert_eq!(round_ids_from_servers(&servers), Err(RoundError::InvalidRoundId));
}

#[test]
fn nothing_is_known_before_the_first_document() {
    let config = OngoingRoundProtectionConfig {
        serverinfo: String::new(),
        paths_to_identifiers: None,
    };
    let protection = OngoingRoundProtection::new(config.clone());
    assert_eq!(protection.config, config);
    assert_eq!(protection.last_known_round_ids, None);
    assert_eq!(
        protection.path_is_ongoing_round(&names(&["round-1"])),
        Err(RoundError::RoundIdsUnknown)
    );
}

#[test]
fn bad_document_keeps_what_was_known() {
    let mut protection = protection(None, &[server("a", Some("100"))]);
    assert_eq!(protection.update(&vec![server("a", Some("x"))]), Err(RoundError::InvalidRoundId));
    assert_eq!(protection.last_known_round_ids, Some(vec![("a".to_string(), 100)]));
    assert_eq!(protection.update(&vec![server("b", Some("7"))]), Ok(()));
    assert_eq!(protection.last_known_round_ids, Some(vec![("b".to_string(), 7)]));
}

#[test]
fn without_mapping_a_round_that_some_server_plays_is_ongoing() {
    let protection = protection(None, &[server("a", Some("100")), server("b", Some("205"))]);
    let path = |round: &str| names(&["game.log", round, "01", "11", "2023", "logs"]);
    assert_eq!(protection.path_is_ongoing_round(&path("round-100")), Ok(true));
    assert_eq!(protection.path_is_ongoing_round(&path("round-205")), Ok(true));
    assert_eq!(protection.path_is_ongoing_round(&path("round-99")), Ok(false));
    assert_eq!(protection.path_is_ongoing_round(&path("round-101")), Ok(false));
    assert_eq!(protection.path_is_ongoing_round(&path("rounds")), Ok(false));
    assert_eq!(protection.path_is_ongoing_round(&Vec::new()), Ok(false));
}

#[test]
fn with_mapping_a_round_not_before_the_servers_round_is_ongoing() {
    let mapping = vec![("round-100", "a"), ("round-101", "a"), ("round-99", "a"), ("round-7", "gone")];
    let protection = protection(Some(mapping), &[server("a", Some("100")), server("b", Some("205"))]);
    let path = |round: &str| names(&["game.log", round, "logs"]);
    assert_eq!(protection.path_is_ongoing_round(&path("round-100")), Ok(true));
    assert_eq!(protection.path_is_ongoing_round(&path("round-101")), Ok(true));
    assert_eq!(protection.path_is_ongoing_round(&path("round-99")), Ok(false));
    assert_eq!(protection.path_is_ongoing_round(&path("round-7")), Ok(false));
    assert_eq!(protection.path_is_ongoing_round(&path("round-205")), Ok(false));
}

#[test]
fn the_innermost_round_directory_that_decides_gives_the_answer() {
    let mapping = vec![("round-50", "a"), ("round-200", "a")];
    let protection = protection(Some(mapping), &[server("a", Some("100"))]);
    assert_eq!(protection.path_is_ongoing_round(&names(&["x", "round-50", "round-200"])), Ok(false));
    assert_eq!(protection.path_is_ongoing_round(&names(&["x", "round-200", "round-50"])), Ok(true));
    assert_eq!(protection.path_is_ongoing_round(&names(&["round-3", "round-200"])), Ok(true));
}

#[test]
fn unreadable_round_directory_is_an_error() {
    let protection = protection(None, &[server("a", Some("100"))]);
    assert_eq!(
        protection.path_is_ongoing_round(&names(&["game.log", "round-abc"])),
        Err(RoundError::InvalidRoundId)
    );
    assert_eq!(
        protection.path_is_ongoing_round(&names(&["round-"])),
        Err(RoundError::InvalidRoundId)
    );
    assert_eq!(protection.path_is_ongoing_round(&names(&["round-100", "round-abc"])), Ok(true));
    assert_eq!(
        protection.path_is_ongoing_round(&names(&["round-99", "round-abc"])),
        Err(RoundError::InvalidRoundId)
    );
}
