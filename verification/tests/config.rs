use slot_observer::burst::{SlotBurst, BURST_LIMIT};
use slot_observer::commitment::{commitment_from_str, Commitment};
use slot_observer::config::{indexer_enabled, Config, ConfigError};
use slot_observer::list::parse_list;

#[test]
fn commitment_names_are_read() {
    assert_eq!(commitment_from_str("processed"), Commitment::Processed);
    assert_eq!(commitment_from_str("confirmed"), Commitment::Confirmed);
    assert_eq!(commitment_from_str("finalized"), Commitment::Finalized);
}

#[test]
fn unknown_commitment_is_finalized() {
    assert_eq!(commitment_from_str(""), Commitment::Finalized);
    assert_eq!(commitment_from_str("Processed"), Commitment::Finalized);
    assert_eq!(commitment_from_str("confirmed "), Commitment::Finalized);
    assert_eq!(commitment_from_str("max"), Commitment::Finalized);
}

#[test]
fn configuration_takes_what_is_set() {
    let cfg = Config::from_values(
        Some("postgres://db".to_string()),
        Some("http://node".to_string()),
        Some("ws://node".to_string()),
        Some("confirmed".to_string()),
        Some("ProgA".to_string()),
    );
    assert_eq!(
        cfg,
        Ok(Config {
            database_url: "postgres://db".to_string(),
            solana_http_url: "http://node".to_string(),
            solana_ws_url: "ws://node".to_string(),
            commitment: "confirmed".to_string(),
            target_program_ids: vec!["ProgA".to_string()],
        })
    );
}

#[test]
fn configuration_falls_back_to_defaults() {
    let cfg =
        Config::from_values(Some("postgres://db".to_string()), None, None, None, None);
    assert_eq!(
        cfg,
        Ok(Config {
            database_url: "postgres://db".to_string(),
            solana_http_url: "https://api.devnet.solana.com".to_string(),
            solana_ws_url: "wss://api.devnet.solana.com/".to_string(),
            commitment: "finalized".to_string(),
            target_program_ids: Vec::new(),
        })
    );
}

#[test]
fn configuration_needs_the_database_url() {
    let cfg = Config::from_values(
        None,
        Some("http://node".to_string()),
        None,
        Some("processed".to_string()),
        Some("ProgA,ProgB".to_string()),
    );
    assert_eq!(cfg, Err(ConfigError::MissingDatabaseUrl));
    assert_eq!(ConfigError::MissingDatabaseUrl.message(), "DATABASE_URL is required");
}

#[test]
fn loop_runs_only_when_the_flag_is_one() {
    assert!(indexer_enabled(Some("1")));
    assert!(!indexer_enabled(Some("0")));
    assert!(!indexer_enabled(Some("")));
    assert!(!indexer_enabled(Some("true")));
    assert!(!indexer_enabled(Some("11")));
    assert!(!indexer_enabled(None));
}

#[test]
fn burst_takes_at_most_five() {
    let mut burst = SlotBurst::new();
    assert!(burst.wants_more());
    for slot in [10u64, 11, 12, 13, 14, 15, 16] {
        burst = burst.observe(slot);
    }
    assert_eq!(BURST_LIMIT, 5);
    assert_eq!(burst.count(), 5);
    assert_eq!(burst.first(), Some(10));
    assert_eq!(burst.last(), Some(14));
    assert!(!burst.wants_more());
}

#[test]
fn burst_of_a_stream_that_ends_early() {
    let mut burst = SlotBurst::new();
    burst = burst.observe(7);
    assert!(burst.wants_more());
    burst = burst.observe(9);
    assert_eq!(burst.count(), 2);
    assert_eq!(burst.first(), Some(7));
    assert_eq!(burst.last(), Some(9));
    assert!(burst.wants_more());
}

#[test]
fn burst_without_notifications_reports_none() {
    let burst = SlotBurst::new();
    assert_eq!(burst.count(), 0);
    assert_eq!(burst.first(), None);
    assert_eq!(burst.last(), None);
}

fn names(items: &[&str]) -> Vec<String> {
    items.iter().map(|s| s.to_string()).collect()
}

#[test]
fn configuration_reads_the_target_list() {
    let cfg = Config::from_values(
        Some("postgres://db".to_string()),
        None,
        None,
        None,
        Some(" ProgB, ProgA ,,ProgB ".to_string()),
    )
    .unwrap();
    assert_eq!(cfg.target_program_ids, names(&["ProgB", "ProgA", "ProgB"]));
    let cfg = Config::from_values(Some("db".to_string()), None, None, None, Some(String::new()))
        .unwrap();
    assert_eq!(cfg.target_program_ids, Vec::<String>::new());
}

#[test]
fn list_is_split_at_commas() {
    assert_eq!(parse_list("a,b,c"), names(&["a", "b", "c"]));
    assert_eq!(parse_list("ProgA"), names(&["ProgA"]));
    assert_eq!(parse_list("a,b,"), names(&["a", "b"]));
    assert_eq!(parse_list(",a"), names(&["a"]));
    assert_eq!(parse_list("a,,b"), names(&["a", "b"]));
}

#[test]
fn list_names_lose_the_blanks_around_them() {
    assert_eq!(parse_list("  a , b\t,\tc\n"), names(&["a", "b", "c"]));
    assert_eq!(parse_list("a b , c"), names(&["a b", "c"]));
    assert_eq!(parse_list(" \r\n x \r\n "), names(&["x"]));
}

#[test]
fn list_without_names_is_empty() {
    assert_eq!(parse_list(""), Vec::<String>::new());
    assert_eq!(parse_list(","), Vec::<String>::new());
    assert_eq!(parse_list(" , ,, \t "), Vec::<String>::new());
    assert_eq!(parse_list("   "), Vec::<String>::new());
}

#[test]
fn list_agrees_with_split_and_trim() {
    let lists = [
        "",
        "a",
        "a,b",
        " a , b ",
        ",,,",
        "Vote111111111111111111111111111111111111111, 11111111111111111111111111111111",
        "é, 日本 ,x",
        "a ,\tb\t, c\n,\r\nd",
        "trailing,",
        ",leading",
    ];
    for list in lists {
        let expected: Vec<String> = list
            .split(',')
            .map(|name| name.trim_matches(|c| c == ' ' || c == '\t' || c == '\n' || c == '\r'))
            .filter(|name| !name.is_empty())
            .map(|name| name.to_string())
            .collect();
        assert_eq!(parse_list(list), expected, "{:?}", list);
    }
}
