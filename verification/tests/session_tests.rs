use termii::services::ssh::agent_auth_allowed;
use termii::state::connect::auth_method_of;
use termii::state::actions::{enabled_forwards, tab_after_close};
use termii::domain::connection::{AuthMethod, SavedConnection};
use termii::domain::session::{error_banner, status_after, SessionUpdate};
use termii::domain::types::ForwardType;
use termii::languages::messages::Messages;
use termii::services::ssh::{
    agent_auth_outcome, on_channel_message, ChannelMessage, ChannelOutcome, ForwardBook,
    PortForwardRule, SessionAction, SshCommand, SshEvent,
};
use termii::services::ssh_keys::{default_key_path, discover_private_key_paths};
use termii::state::connect::{auth_plan_from_method, connect_saved_plan, AuthPlan, ConnectPlan};

fn rule(id: &str, kind: ForwardType, enabled: bool) -> PortForwardRule {
    PortForwardRule {
        id: id.to_string(),
        kind,
        listen_host: "127.0.0.1".to_string(),
        listen_port: 8080,
        target_host: "10.0.0.5".to_string(),
        target_port: 80,
        enabled,
    }
}

fn saved(user: &str, auth: AuthMethod) -> SavedConnection {
    SavedConnection {
        id: "c1".to_string(),
        display_name: "Box".to_string(),
        host: "10.1.1.1".to_string(),
        port: 2200,
        username: user.to_string(),
        auth,
        encrypted_password: None,
        text_tint_rgba: None,
    }
}

fn strings(v: &[&str]) -> Vec<String> {
    v.iter().map(|s| s.to_string()).collect()
}

#[test]
fn local_forward_replaces_a_running_one() {
    let mut book = ForwardBook::new();
    let a = book.on_command(SshCommand::AddPortForward(rule("f1", ForwardType::Local, true)));
    assert_eq!(a.len(), 1);
    assert!(matches!(&a[0], SessionAction::StartLocal(r) if r.id == "f1"));
    let a = book.on_command(SshCommand::AddPortForward(rule("f1", ForwardType::Local, true)));
    assert_eq!(a.len(), 2);
    assert!(matches!(&a[0], SessionAction::AbortLocal(id) if id == "f1"));
    assert_eq!(book.local, vec!["f1".to_string()]);
    let a = book.on_command(SshCommand::AddPortForward(rule("f2", ForwardType::Local, false)));
    assert!(a.is_empty());
}

#[test]
fn remote_forward_is_recorded_and_removed() {
    let mut book = ForwardBook::new();
    let r = rule("r1", ForwardType::Remote, true);
    let a = book.on_command(SshCommand::AddPortForward(r.clone()));
    assert!(matches!(&a[..], [SessionAction::RequestRemote(_)]));
    book.remote_bound(&r, 9000);
    assert_eq!(book.reverse_target("127.0.0.1", 9000), Some(("10.0.0.5".to_string(), 80)));
    assert_eq!(book.reverse_target("0.0.0.0", 9000), Some(("10.0.0.5".to_string(), 80)));
    assert_eq!(book.reverse_target("127.0.0.1", 9001), None);
    let a = book.on_command(SshCommand::RemovePortForward("r1".to_string()));
    assert!(matches!(&a[..], [SessionAction::CancelRemote { host, port: 9000 }] if host == "127.0.0.1"));
    assert!(book.remote.is_empty());
    assert_eq!(book.reverse_target("127.0.0.1", 9000), None);
}

#[test]
fn clearing_and_teardown_stop_everything() {
    let mut book = ForwardBook::new();
    book.on_command(SshCommand::AddPortForward(rule("a", ForwardType::Local, true)));
    let r = rule("b", ForwardType::Remote, true);
    book.on_command(SshCommand::AddPortForward(r.clone()));
    book.remote_bound(&r, 7000);
    let a = book.on_command(SshCommand::ClearPortForwards);
    assert_eq!(a.len(), 2);
    assert!(matches!(&a[0], SessionAction::AbortLocal(id) if id == "a"));
    assert!(matches!(&a[1], SessionAction::CancelRemote { port: 7000, .. }));
    assert!(book.local.is_empty() && book.remote.is_empty() && book.targets.is_empty());
    assert!(book.teardown().is_empty());
    let a = book.on_command(SshCommand::Disconnect);
    assert!(matches!(&a[..], [SessionAction::Close]));
    let a = book.on_command(SshCommand::Resize { cols: 100, rows: 40 });
    assert!(matches!(&a[..], [SessionAction::WindowChange { cols: 100, rows: 40 }]));
}

#[test]
fn channel_messages_become_events() {
    match on_channel_message(ChannelMessage::ExtendedData(vec![1, 2])) {
        ChannelOutcome::Forward(SshEvent::Data(d)) => assert_eq!(d, vec![1, 2]),
        _ => panic!("expected data"),
    }
    assert!(matches!(on_channel_message(ChannelMessage::Eof), ChannelOutcome::Stop));
    assert!(matches!(on_channel_message(ChannelMessage::Other), ChannelOutcome::Ignore));
}

#[test]
fn agent_auth_reports_why_it_failed() {
    assert!(agent_auth_outcome(0, false).unwrap_err().starts_with("No usable SSH private keys"));
    assert!(agent_auth_outcome(2, false).unwrap_err().starts_with("Server rejected all"));
    assert!(agent_auth_outcome(2, true).is_ok());
}

#[test]
fn default_key_prefers_ed25519() {
    let files = strings(&["id_rsa", "id_ed25519"]);
    assert_eq!(default_key_path(Some("/home/u/.ssh"), &files), "/home/u/.ssh/id_ed25519");
    assert_eq!(default_key_path(Some("/home/u/.ssh"), &strings(&["id_ecdsa"])), "/home/u/.ssh/id_ecdsa");
    assert_eq!(default_key_path(Some("/home/u/.ssh"), &strings(&["other"])), "");
    assert_eq!(default_key_path(None, &files), "");
}

#[test]
fn key_discovery_skips_non_keys_and_duplicates() {
    let present = strings(&["id_rsa"]);
    let listing = strings(&["known_hosts", "id_rsa", "work_key", "work_key.pub", "CONFIG", "Authorized_Keys", "known_hosts.old"]);
    let found = discover_private_key_paths(Some("/s"), &present, &listing);
    assert_eq!(found, strings(&["/s/id_rsa", "/s/work_key"]));
    assert!(discover_private_key_paths(None, &present, &listing).is_empty());
}

#[test]
fn saved_connections_open_directly_or_ask() {
    match connect_saved_plan(&saved("root", AuthMethod::Key { path: String::new(), passphrase_required: false }), None, "/k/id_rsa", false) {
        ConnectPlan::Open(AuthPlan::Key { path }) => assert_eq!(path, "/k/id_rsa"),
        _ => panic!("expected a direct key session"),
    }
    match connect_saved_plan(&saved("root", AuthMethod::Agent), None, "", true) {
        ConnectPlan::Open(AuthPlan::Agent { auto_discover_keys }) => assert!(auto_discover_keys),
        _ => panic!("expected an agent session"),
    }
    match connect_saved_plan(&saved("root", AuthMethod::Password), Some("pw".to_string()), "", false) {
        ConnectPlan::Open(AuthPlan::Password(p)) => assert_eq!(p, "pw"),
        _ => panic!("expected a password session"),
    }
    match connect_saved_plan(&saved("root", AuthMethod::Password), None, "/k", false) {
        ConnectPlan::Prompt(f) => {
            assert_eq!(f.port, "2200");
            assert!(!f.use_key);
            assert_eq!(f.key_path, "/k");
            assert_eq!(f.device_name, "Box");
        },
        _ => panic!("expected the prompt"),
    }
    match connect_saved_plan(&saved("", AuthMethod::Agent), None, "", false) {
        ConnectPlan::Prompt(f) => assert_eq!(f.host, "10.1.1.1"),
        _ => panic!("expected the prompt"),
    }
    assert!(auth_plan_from_method(&AuthMethod::Password, "", false).is_none());
}

#[test]
fn status_follows_session_events() {
    let m = Messages::from_json(
        r#"{"status.connected": "Connected", "status.error_prefix": "Error", "status.error_with_message": "Error: {message}", "status.disconnected": "Disconnected", "status.session_ended": "Ended"}"#,
    )
    .expect("messages");
    let (c, s) = status_after(&m, false, "Connecting", &SessionUpdate::Event(SshEvent::Connected));
    assert!(c);
    assert_eq!(s, "Connected");
    let (c, s) = status_after(&m, true, "Connected", &SessionUpdate::Event(SshEvent::Error("boom".to_string())));
    assert!(c);
    assert_eq!(s, "Error: boom");
    let (c, s) = status_after(&m, true, "Error: boom", &SessionUpdate::Event(SshEvent::Disconnected));
    assert!(!c);
    assert_eq!(s, "Error: boom");
    let (_, s) = status_after(&m, true, "Connected", &SessionUpdate::LoopEnded);
    assert_eq!(s, "Ended");
    assert_eq!(error_banner("x"), "\r\n\x1b[1;31m--- SSH Error ---\r\nx\r\n-----------------\x1b[0m\r\n");
}

#[test]
fn only_enabled_forwards_start_and_tabs_stay_in_range() {
    let rules = vec![rule("a", ForwardType::Local, true), rule("b", ForwardType::Remote, false), rule("c", ForwardType::Remote, true)];
    let on = enabled_forwards(&rules);
    assert_eq!(on.iter().map(|r| r.id.as_str()).collect::<Vec<_>>(), vec!["a", "c"]);
    assert_eq!(tab_after_close(3, 3), 2);
    assert_eq!(tab_after_close(1, 3), 1);
    assert_eq!(tab_after_close(0, 0), 0);
}

#[test]
fn agent_auth_needs_key_discovery_and_plans_map_to_methods() {
    assert!(agent_auth_allowed(true).is_ok());
    assert_eq!(agent_auth_allowed(false).unwrap_err(), "SSH agent auth not implemented yet");
    assert!(matches!(
        auth_method_of(&AuthPlan::Key { path: "/k".to_string() }),
        AuthMethod::Key { ref path, passphrase_required: false } if path == "/k"
    ));
    assert!(matches!(auth_method_of(&AuthPlan::Password("x".to_string())), AuthMethod::Password));
    assert!(matches!(auth_method_of(&AuthPlan::Agent { auto_discover_keys: true }), AuthMethod::Agent));
}
