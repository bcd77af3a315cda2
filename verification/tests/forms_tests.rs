use termii::domain::connection::{AuthMethod, SavedConnection};
use termii::domain::types::ForwardType;
use termii::services::config::{AppConfig, Folder};
use termii::services::crypto::EncryptedSecret;
use termii::services::ssh::{host_key_step, unknown_host_answer, HostKeyStep, KnownHostsCheck};
use termii::services::ssh_keys::preferred_key_name;
use termii::services::tailscale::{next_device_list, tailscale_cli_candidates, TailscaleDevice};
use termii::state::actions::{
    duplicate_connection, propagate_folder_tint, rename_folder, select_all_startup, set_connection_tint,
    set_folder_tint, set_startup_selected, startup_candidates,
};
use termii::state::connect::{prompt_for_device, saved_password, scp_auth_for_saved};
use termii::state::dialogs::{ScpAuthModeState, ScpDirectionState};
use termii::state::forms::{
    can_connect, new_forward_rule, password_plan, port_or_default, prompt_host, scp_can_start,
    store_edited_connection, PasswordPlan,
};

fn conn(id: &str, name: &str, host: &str) -> SavedConnection {
    SavedConnection {
        id: id.to_string(),
        display_name: name.to_string(),
        host: host.to_string(),
        port: 22,
        username: "u".to_string(),
        auth: AuthMethod::Agent,
        encrypted_password: None,
        text_tint_rgba: None,
    }
}

fn folder(id: &str, conns: Vec<SavedConnection>, subfolders: Vec<Folder>) -> Folder {
    Folder {
        id: id.to_string(),
        name: id.to_uppercase(),
        connections: conns,
        subfolders,
        expanded: true,
        text_tint_rgba: None,
    }
}

fn device(host: &str) -> TailscaleDevice {
    TailscaleDevice {
        hostname: host.to_string(),
        dns_name: format!("{}.tail.ts.net", host),
        addresses: vec!["100.64.0.7".to_string(), "fd7a::7".to_string()],
        os: "linux".to_string(),
        online: true,
        last_seen: None,
        is_self: false,
        owner: String::new(),
    }
}

fn ids(v: &[SavedConnection]) -> Vec<&str> {
    v.iter().map(|c| c.id.as_str()).collect()
}

#[test]
fn ports_fall_back_to_22() {
    assert_eq!(port_or_default("2222"), 2222);
    assert_eq!(port_or_default("65535"), 65535);
    assert_eq!(port_or_default("65536"), 22);
    assert_eq!(port_or_default("ssh"), 22);
    assert_eq!(port_or_default(""), 22);
}

#[test]
fn prompt_uses_the_dns_name_only_when_chosen_and_known() {
    assert_eq!(prompt_host(true, "nas.ts.net", "100.1.1.1"), "nas.ts.net");
    assert_eq!(prompt_host(true, "", "100.1.1.1"), "100.1.1.1");
    assert_eq!(prompt_host(false, "nas.ts.net", "100.1.1.1"), "100.1.1.1");
    assert!(can_connect("root", "h"));
    assert!(!can_connect("", "h"));
    assert!(!can_connect("root", ""));
}

#[test]
fn forward_rules_are_built_from_the_form() {
    let rule = new_forward_rule(ForwardType::Remote, " 0.0.0.0 ", "9000", " localhost", "3000").unwrap();
    assert_eq!(rule.kind, ForwardType::Remote);
    assert_eq!(rule.listen_host, "0.0.0.0");
    assert_eq!(rule.listen_port, 9000);
    assert_eq!(rule.target_host, "localhost");
    assert_eq!(rule.target_port, 3000);
    assert!(rule.enabled);
    assert_eq!(rule.id.len(), 36);
    assert!(new_forward_rule(ForwardType::Local, "h", "80x", "t", "80").is_none());
    assert!(new_forward_rule(ForwardType::Local, "h", "80", "t", "").is_none());
}

#[test]
fn transfer_needs_every_field_of_its_direction() {
    let sources = vec!["/home/u/a.txt".to_string()];
    let none: Vec<String> = Vec::new();
    let up = |src: &Vec<String>, mode: ScpAuthModeState, key: &str, pw: &str| {
        scp_can_start("h", "u", ScpDirectionState::LocalToRemote, src, "/tmp", "", "", mode, key, pw)
    };
    assert!(up(&sources, ScpAuthModeState::Key, "~/.ssh/id", ""));
    assert!(!up(&none, ScpAuthModeState::Key, "~/.ssh/id", ""));
    assert!(!up(&sources, ScpAuthModeState::Key, "  ", ""));
    assert!(!up(&sources, ScpAuthModeState::Password, "", ""));
    assert!(up(&sources, ScpAuthModeState::Password, "", "pw"));
    assert!(up(&sources, ScpAuthModeState::Agent, "", ""));
    assert!(!scp_can_start(" ", "u", ScpDirectionState::LocalToRemote, &sources, "/tmp", "", "", ScpAuthModeState::Agent, "", ""));
    let down = |remote: &str, local: &str| {
        scp_can_start("h", "u", ScpDirectionState::RemoteToLocal, &none, "", remote, local, ScpAuthModeState::Agent, "", "")
    };
    assert!(down("/var/log/a, /etc/b", "/home/u"));
    assert!(!down(" , \n,", "/home/u"));
    assert!(!down("/var/log/a", " "));
}

#[test]
fn password_plan_covers_each_case() {
    assert_eq!(password_plan(true, false, false, false, false), PasswordPlan::NotNeeded);
    assert_eq!(password_plan(false, false, true, true, false), PasswordPlan::UnlockFirst);
    assert_eq!(password_plan(false, false, false, true, false), PasswordPlan::CreateFirst);
    assert_eq!(password_plan(false, true, true, true, true), PasswordPlan::Seal);
    assert_eq!(password_plan(false, true, true, false, true), PasswordPlan::KeepExisting);
    assert_eq!(password_plan(false, true, true, false, false), PasswordPlan::Missing);
}

#[test]
fn edited_connection_replaces_the_old_entry() {
    let mut cfg = AppConfig::default();
    cfg.folders = vec![folder("a", vec![conn("c1", "Old", "h1")], vec![]), folder("b", vec![], vec![])];
    let sealed = EncryptedSecret { nonce_b64: "n".to_string(), ciphertext_b64: "c".to_string() };
    let c = store_edited_connection(
        &mut cfg,
        Some("c1".to_string()),
        "New".to_string(),
        "h2".to_string(),
        "2200",
        "admin".to_string(),
        false,
        String::new(),
        Some(sealed),
        Some([1, 2, 3, 255]),
        "b",
    );
    assert_eq!(c.id, "c1");
    assert!(cfg.folders[0].connections.is_empty());
    let stored = &cfg.folders[1].connections[0];
    assert_eq!(stored.display_name, "New");
    assert_eq!(stored.host, "h2");
    assert_eq!(stored.port, 2200);
    assert_eq!(stored.username, "admin");
    assert!(matches!(stored.auth, AuthMethod::Password));
    assert_eq!(stored.encrypted_password.as_ref().unwrap().nonce_b64, "n");
    assert_eq!(stored.text_tint_rgba, Some([1, 2, 3, 255]));
}

#[test]
fn new_connection_goes_to_the_first_folder_when_the_target_is_gone() {
    let mut cfg = AppConfig::default();
    let before = cfg.next_id;
    let c = store_edited_connection(
        &mut cfg,
        None,
        "Web".to_string(),
        "web".to_string(),
        "x",
        "u".to_string(),
        true,
        "/k".to_string(),
        None,
        None,
        "missing",
    );
    assert_eq!(c.id.len(), 36);
    assert_eq!(c.port, 22);
    assert!(matches!(&c.auth, AuthMethod::Key { path, passphrase_required: false } if path == "/k"));
    assert_eq!(cfg.next_id, before + 1);
    assert_eq!(cfg.folders[0].connections.last().unwrap().id, c.id);
}

#[test]
fn renaming_and_tinting_reach_nested_folders() {
    let mut folders = vec![folder("a", vec![], vec![folder("b", vec![conn("c1", "One", "h"), conn("c2", "Two", "h")], vec![])])];
    assert!(rename_folder(&mut folders, "b", "Renamed".to_string()));
    assert_eq!(folders[0].subfolders[0].name, "Renamed");
    assert!(!rename_folder(&mut folders, "zz", "x".to_string()));

    assert!(set_folder_tint(&mut folders, "b", Some([9, 9, 9, 255])));
    assert_eq!(folders[0].subfolders[0].text_tint_rgba, Some([9, 9, 9, 255]));
    assert!(set_connection_tint(&mut folders, "c1", Some([1, 1, 1, 255])));
    assert_eq!(folders[0].subfolders[0].connections[0].text_tint_rgba, Some([1, 1, 1, 255]));
    assert!(!set_connection_tint(&mut folders, "nope", None));

    assert!(propagate_folder_tint(&mut folders, "b"));
    for c in &folders[0].subfolders[0].connections {
        assert_eq!(c.text_tint_rgba, Some([9, 9, 9, 255]));
    }
    assert!(!propagate_folder_tint(&mut folders, "nope"));
}

#[test]
fn duplicate_gets_a_fresh_id_and_the_new_name() {
    let original = conn("c1", "One", "h");
    let dup = duplicate_connection(&original, "One (copy)".to_string());
    assert_ne!(dup.id, original.id);
    assert_eq!(dup.id.len(), 36);
    assert_eq!(dup.display_name, "One (copy)");
    assert_eq!(dup.host, "h");
    assert_eq!(dup.username, "u");
}

#[test]
fn startup_list_is_sorted_and_selectable() {
    let mut cfg = AppConfig::default();
    cfg.folders = vec![folder(
        "a",
        vec![conn("c1", "beta", "h"), conn("c2", "Alpha", "z"), conn("c3", "alpha", "b")],
        vec![folder("b", vec![conn("c4", "Gamma", "h")], vec![])],
    )];
    assert_eq!(ids(&startup_candidates(&cfg.folders)), vec!["c3", "c2", "c1", "c4"]);

    set_startup_selected(&mut cfg, "c4", true);
    set_startup_selected(&mut cfg, "c4", true);
    assert!(cfg.connect_instances_on_open);
    assert_eq!(cfg.startup_connection_ids, vec!["c4".to_string()]);
    set_startup_selected(&mut cfg, "c4", false);
    assert!(cfg.startup_connection_ids.is_empty());
    assert!(cfg.connect_instances_on_open);

    cfg.connect_instances_on_open = false;
    select_all_startup(&mut cfg);
    assert!(cfg.connect_instances_on_open);
    assert_eq!(cfg.startup_connection_ids, vec!["c3", "c2", "c1", "c4"]);
}

#[test]
fn device_prompt_and_transfer_auth_come_from_the_source() {
    let f = prompt_for_device(&device("nas"), "/home/u/.ssh/id_ed25519");
    assert_eq!(f.host, "100.64.0.7");
    assert_eq!(f.dns_name, "nas.tail.ts.net");
    assert_eq!(f.device_name, "nas");
    assert_eq!(f.port, "22");
    assert!(f.use_key);
    assert_eq!(f.key_path, "/home/u/.ssh/id_ed25519");
    assert!(f.password.is_empty());

    let mut c = conn("c1", "One", "h");
    c.auth = AuthMethod::Key { path: String::new(), passphrase_required: false };
    assert_eq!(scp_auth_for_saved(&c, "/d"), (ScpAuthModeState::Key, "/d".to_string()));
    c.auth = AuthMethod::Key { path: "/mine".to_string(), passphrase_required: true };
    assert_eq!(scp_auth_for_saved(&c, "/d"), (ScpAuthModeState::Key, "/mine".to_string()));
    c.auth = AuthMethod::Password;
    assert_eq!(scp_auth_for_saved(&c, "/d"), (ScpAuthModeState::Password, "/d".to_string()));
    assert_eq!(saved_password(None, &c), None);
    assert_eq!(saved_password(Some(&[0u8; 32]), &c), None);
}

#[test]
fn host_keys_are_accepted_asked_or_refused() {
    assert!(matches!(host_key_step(KnownHostsCheck::Known, "h", 22, "SHA256:x"), HostKeyStep::Accept));
    assert!(matches!(host_key_step(KnownHostsCheck::Unknown, "h", 22, "SHA256:x"), HostKeyStep::AskUser));
    match host_key_step(KnownHostsCheck::Changed { line: 12 }, "srv", 2222, "SHA256:abc") {
        HostKeyStep::Reject(m) => assert_eq!(
            m,
            "Host key verification failed for srv:2222 (SHA256:abc): key changed (known_hosts line 12)."
        ),
        other => panic!("unexpected {:?}", other),
    }
    match host_key_step(KnownHostsCheck::Failed("bad file".to_string()), "srv", 22, "SHA256:abc") {
        HostKeyStep::Reject(m) => assert_eq!(m, "Host key verification failed for srv:22 (SHA256:abc): bad file"),
        other => panic!("unexpected {:?}", other),
    }
    assert!(unknown_host_answer(true, "srv", 22, "fp").is_ok());
    assert_eq!(
        unknown_host_answer(false, "srv", 22, "SHA256:abc").unwrap_err(),
        "Host key verification failed for srv:22 (unknown host key SHA256:abc)."
    );
}

#[test]
fn discovery_keeps_the_old_list_on_failure() {
    let current = vec![device("a")];
    assert!(next_device_list(false, current.clone(), Some(vec![device("b")])).is_empty());
    assert_eq!(next_device_list(true, current.clone(), None)[0].hostname, "a");
    assert_eq!(next_device_list(true, current, Some(vec![device("b")]))[0].hostname, "b");
    assert_eq!(tailscale_cli_candidates(false), vec!["tailscale"]);
    assert_eq!(tailscale_cli_candidates(true).len(), 4);
    assert_eq!(tailscale_cli_candidates(true)[0], "tailscale");
    assert_eq!(preferred_key_name(0), "id_ed25519");
}
