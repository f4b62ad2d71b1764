use sb_agent_core::net::parse_host_port;

#[test]
fn test_parse_host_port() {
    assert_eq!(parse_host_port("http://localhost:4317"), Some("localhost:4317".to_string()));
    assert_eq!(parse_host_port("https://ingest.example.dev"), Some("ingest.example.dev:443".to_string()));
    assert_eq!(
        parse_host_port("https://ingest.example.dev/v1/metrics"),
        Some("ingest.example.dev:443".to_string())
    );
    assert_eq!(
        parse_host_port("https://ingest.example.dev:4317/v1/metrics"),
        Some("ingest.example.dev:4317".to_string())
    );
    assert_eq!(parse_host_port("ingest.example.dev:4317"), Some("ingest.example.dev:4317".to_string()));
}

#[test]
fn parse_host_port_edge_cases() {
    assert_eq!(parse_host_port(""), None);
    assert_eq!(parse_host_port("   "), None);
    assert_eq!(parse_host_port("https://"), None);
    assert_eq!(parse_host_port("http:///path"), None);
    assert_eq!(parse_host_port("  http://host  "), Some("host:4317".to_string()));
    assert_eq!(parse_host_port("host?x=1"), Some("host:4317".to_string()));
    assert_eq!(parse_host_port("https://host#frag"), Some("host:443".to_string()));
    assert_eq!(parse_host_port("https://https://host"), Some("host:443".to_string()));
    assert_eq!(parse_host_port("http://https://host"), Some("https:".to_string()));
}
