use sse_connector::headers::{lookup_header, parse_header_map};

fn parsed(s: &str) -> Vec<(String, String)> {
    parse_header_map(s).expect("input should parse")
}

#[test]
fn empty_input_gives_empty_mapping() {
    assert_eq!(parsed(""), Vec::<(String, String)>::new());
}

#[test]
fn whitespace_only_input_gives_empty_mapping() {
    assert_eq!(parsed("   \t "), Vec::<(String, String)>::new());
}

#[test]
fn entry_without_colon_is_rejected() {
    assert!(parse_header_map("foo").is_none());
}

#[test]
fn entry_with_empty_key_is_rejected() {
    assert!(parse_header_map(":bar").is_none());
}

#[test]
fn single_pair_is_parsed_and_trimmed() {
    assert_eq!(parsed("Authorization: Bearer x"), vec![(
        "Authorization".to_string(),
        "Bearer x".to_string(),
    )]);
}

#[test]
fn two_pairs_are_parsed_in_order() {
    assert_eq!(parsed("Authorization: Bearer x, X-Foo: bar"), vec![
        ("Authorization".to_string(), "Bearer x".to_string()),
        ("X-Foo".to_string(), "bar".to_string()),
    ]);
}

#[test]
fn value_may_be_empty() {
    assert_eq!(parsed("a:"), vec![("a".to_string(), "".to_string())]);
}

#[test]
fn value_keeps_later_colons() {
    assert_eq!(parsed("a: b:c"), vec![("a".to_string(), "b:c".to_string())]);
}

#[test]
fn surrounding_whitespace_is_trimmed() {
    assert_eq!(parsed("  a \t:  b  ,\tc: d "), vec![
        ("a".to_string(), "b".to_string()),
        ("c".to_string(), "d".to_string()),
    ]);
}

#[test]
fn duplicate_keys_are_kept_in_order_so_the_last_wins() {
    let pairs = parsed("k: one, k: two");
    assert_eq!(pairs, vec![
        ("k".to_string(), "one".to_string()),
        ("k".to_string(), "two".to_string()),
    ]);
    // lookup by key takes the last occurrence
    let last = pairs.iter().rev().find(|p| p.0 == "k").unwrap();
    assert_eq!(last.1, "two");
}

#[test]
fn empty_entry_between_commas_is_rejected() {
    assert!(parse_header_map("a: 1,,b: 2").is_none());
    assert!(parse_header_map("a: 1,").is_none());
}

#[test]
fn whitespace_key_is_rejected() {
    assert!(parse_header_map("  : v").is_none());
}

#[test]
fn lookup_takes_the_last_occurrence_of_a_key() {
    let pairs = parsed("k: one, other: x, k: two");
    assert_eq!(lookup_header(&pairs, "k"), Some(&"two".to_string()));
    assert_eq!(lookup_header(&pairs, "other"), Some(&"x".to_string()));
    assert_eq!(lookup_header(&pairs, "missing"), None);
}

#[test]
fn encode_then_parse_recovers_the_pairs() {
    let pairs = vec![
        ("k1".to_string(), "v1".to_string()),
        ("k2".to_string(), "v2".to_string()),
        ("Content-Type".to_string(), "text/event-stream".to_string()),
    ];
    let encoded = pairs
        .iter()
        .map(|(k, v)| format!("{}: {}", k, v))
        .collect::<Vec<_>>()
        .join(", ");
    assert_eq!(encoded, "k1: v1, k2: v2, Content-Type: text/event-stream");
    assert_eq!(parsed(&encoded), pairs);
}
