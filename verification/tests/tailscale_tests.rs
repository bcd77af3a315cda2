use termii::services::tailscale::{glob_match, parse_status, TsNode, TsStatus, TsUser};

fn node(host: &str, dns: &str, ips: &[&str], os: &str, online: bool, last_seen: Option<&str>, user: i64) -> TsNode {
    TsNode {
        hostname: host.to_string(),
        dns_name: dns.to_string(),
        tailscale_ips: ips.iter().map(|s| s.to_string()).collect(),
        os: os.to_string(),
        online,
        last_seen: last_seen.map(|s| s.to_string()),
        user_id: user,
    }
}

#[test]
fn test_parse_status_empty() {
    let status = TsStatus { self_node: None, peer: None, user: Vec::new() };
    let devices = parse_status(status);
    assert!(devices.is_empty());
}

#[test]
fn test_parse_status_with_peers_and_owners() {
    let status = TsStatus {
        self_node: Some(node("my-pc", "my-pc.tail1234.ts.net.", &["100.64.0.1"], "windows", true, None, 1001)),
        peer: Some(vec![
            (
                "nodekey:abc123".to_string(),
                node(
                    "server1",
                    "server1.tail1234.ts.net.",
                    &["100.64.0.2", "fd7a::2"],
                    "linux",
                    true,
                    Some("2025-01-15T10:30:00Z"),
                    1002,
                ),
            ),
            (
                "nodekey:def456".to_string(),
                node("nas", "nas.tail1234.ts.net.", &["100.64.0.3"], "linux", false, Some("2025-01-14T08:00:00Z"), 1001),
            ),
        ]),
        user: vec![
            ("1001".to_string(), TsUser { login_name: "alice@example.com".to_string() }),
            ("1002".to_string(), TsUser { login_name: "bob@corp.com".to_string() }),
        ],
    };
    let devices = parse_status(status);
    assert_eq!(devices.len(), 3);

    let self_dev = devices.iter().find(|d| d.is_self).expect("self device");
    assert_eq!(self_dev.owner, "alice@example.com");

    let server = devices.iter().find(|d| d.hostname == "server1").expect("server1 device");
    assert_eq!(server.owner, "bob@corp.com");

    let nas = devices.iter().find(|d| d.hostname == "nas").expect("nas device");
    assert_eq!(nas.owner, "alice@example.com");
}

#[test]
fn parsed_devices_are_sorted_and_trimmed() {
    let status = TsStatus {
        self_node: Some(node("Zeta", "zeta.ts.net.", &[], "linux", true, None, 7)),
        peer: Some(vec![
            ("k1".to_string(), node("beta", "beta.ts.net.", &["100.1.1.1"], "linux", true, None, 9)),
            ("k2".to_string(), node("Alpha", "alpha.ts.net...", &[], "macOS", false, None, 7)),
        ]),
        user: vec![("7".to_string(), TsUser { login_name: "z@x".to_string() })],
    };
    let devices = parse_status(status);
    let names: Vec<&str> = devices.iter().map(|d| d.hostname.as_str()).collect();
    assert_eq!(names, vec!["Alpha", "beta", "Zeta"]);
    assert_eq!(devices[0].dns_name, "alpha.ts.net");
    assert_eq!(devices[1].owner, "");
    assert_eq!(devices[2].owner, "z@x");
    assert!(devices[2].is_self);
}

#[test]
fn test_glob_match() {
    assert!(glob_match("test-*", "test-server1"));
    assert!(glob_match("test-*", "test-"));
    assert!(!glob_match("test-*", "prod-server1"));
    assert!(glob_match("*-prod", "web-prod"));
    assert!(glob_match("*-prod", "db-prod"));
    assert!(!glob_match("*-prod", "db-staging"));
    assert!(glob_match("web-*-eu", "web-app-eu"));
    assert!(!glob_match("web-*-eu", "web-app-us"));
    assert!(glob_match("*", "anything"));
    assert!(glob_match("exact", "exact"));
    assert!(!glob_match("exact", "other"));
    assert!(glob_match("Test-*", "test-SERVER"));
}

#[test]
fn glob_question_mark_takes_one_character() {
    assert!(glob_match("db-?", "db-1"));
    assert!(!glob_match("db-?", "db-12"));
    assert!(glob_match("", ""));
    assert!(!glob_match("", "x"));
}
