use termii::domain::connection::{AuthMethod, SavedConnection};
use termii::services::config::{AppConfig, Folder};
use termii::services::scp::{remote_dir_prefixes, remote_join, remote_parent, remote_relative_path, basename_remote, normalize_remote_path};
use termii::services::tailscale::TailscaleDevice;
use termii::state::actions::{
    add_new_folder, add_tailscale_device_as_saved, add_tailscale_group, collect_saved_connections,
    delete_tailscale_group, edit_tailscale_group, hide_tailscale_device, move_connection,
    should_autoconnect, startup_connections,
};
use termii::ui::scp::parse_remote_sources;
use termii::ui::tree::{
    custom_group_section_id, devices_by_owner, folder_matches, folder_shown, group_members,
    ungrouped_devices, visible_peers,
};

fn conn(id: &str, name: &str, user: &str, auth: AuthMethod) -> SavedConnection {
    SavedConnection {
        id: id.to_string(),
        display_name: name.to_string(),
        host: "h".to_string(),
        port: 22,
        username: user.to_string(),
        auth,
        encrypted_password: None,
        text_tint_rgba: None,
    }
}

fn folder(id: &str, name: &str) -> Folder {
    Folder { id: id.to_string(), name: name.to_string(), connections: Vec::new(), subfolders: Vec::new(), expanded: true, text_tint_rgba: None }
}

fn device(host: &str, owner: &str, is_self: bool) -> TailscaleDevice {
    TailscaleDevice {
        hostname: host.to_string(),
        dns_name: format!("{}.ts.net", host),
        addresses: vec!["100.1.2.3".to_string()],
        os: "linux".to_string(),
        online: true,
        last_seen: None,
        is_self,
        owner: owner.to_string(),
    }
}

#[test]
fn moving_a_connection_takes_it_to_the_target() {
    let mut a = folder("a", "A");
    a.connections.push(conn("c1", "One", "u", AuthMethod::Agent));
    let mut folders = vec![a, folder("b", "B")];
    assert!(move_connection(&mut folders, "c1", "b"));
    assert!(folders[0].connections.is_empty());
    assert_eq!(folders[1].connections[0].id, "c1");
    assert!(!move_connection(&mut folders, "missing", "a"));
}

#[test]
fn new_folders_go_under_the_parent_or_at_the_top() {
    let mut cfg = AppConfig::default();
    let parent = cfg.folders[0].id.clone();
    let id = add_new_folder(&mut cfg, &parent, "New".to_string());
    assert_eq!(cfg.folders[0].subfolders[0].id, id);
    add_new_folder(&mut cfg, "", "Top".to_string());
    assert_eq!(cfg.folders.len(), 2);
    assert_eq!(cfg.folders[1].name, "Top");
    assert_eq!(cfg.next_id, 3);
}

#[test]
fn tailscale_device_becomes_an_agent_connection() {
    let mut cfg = AppConfig::default();
    add_tailscale_device_as_saved(&mut cfg, &device("nas", "", false));
    let c = &cfg.folders[0].connections[0];
    assert_eq!(c.display_name, "nas");
    assert_eq!(c.host, "100.1.2.3");
    assert_eq!(c.port, 22);
    assert!(matches!(c.auth, AuthMethod::Agent));
}

#[test]
fn group_rules_are_added_edited_and_deleted() {
    let mut cfg = AppConfig::default();
    add_tailscale_group(&mut cfg, "Web".to_string(), "web-*".to_string());
    let id = cfg.tailscale_groups[0].id.clone();
    edit_tailscale_group(&mut cfg.tailscale_groups, &id, "Webs".to_string(), "w*".to_string());
    assert_eq!(cfg.tailscale_groups[0].name, "Webs");
    delete_tailscale_group(&mut cfg.tailscale_groups, &id);
    assert!(cfg.tailscale_groups.is_empty());
    assert!(hide_tailscale_device(&mut cfg.hidden_tailscale_devices, "nas".to_string()));
    assert!(!hide_tailscale_device(&mut cfg.hidden_tailscale_devices, "nas".to_string()));
    assert_eq!(cfg.hidden_tailscale_devices.len(), 1);
}

#[test]
fn startup_selection_uses_chosen_ids() {
    let mut a = folder("a", "A");
    a.connections.push(conn("c1", "One", "u", AuthMethod::Agent));
    a.connections.push(conn("c2", "Two", " ", AuthMethod::Agent));
    let mut sub = folder("s", "S");
    sub.connections.push(conn("c3", "Three", "u", AuthMethod::Password));
    sub.connections.push(conn("c4", "Four", "u", AuthMethod::Key { path: String::new(), passphrase_required: false }));
    a.subfolders.push(sub);
    let mut cfg = AppConfig::default();
    cfg.folders = vec![a];
    let all = collect_saved_connections(&cfg.folders);
    assert_eq!(all.iter().map(|c| c.id.as_str()).collect::<Vec<_>>(), vec!["c1", "c2", "c3", "c4"]);
    assert!(!should_autoconnect(&all[1]));
    assert!(!should_autoconnect(&all[2]));
    let ids: Vec<String> = startup_connections(&cfg).into_iter().map(|c| c.id).collect();
    assert_eq!(ids, vec!["c1", "c4"]);
    cfg.startup_connection_ids = vec!["c4".to_string()];
    let ids: Vec<String> = startup_connections(&cfg).into_iter().map(|c| c.id).collect();
    assert_eq!(ids, vec!["c4"]);
}

#[test]
fn search_matches_folders_and_connections() {
    let mut a = folder("a", "Servers");
    let mut sub = folder("b", "Lab");
    sub.connections.push(conn("c", "Database", "u", AuthMethod::Agent));
    a.subfolders.push(sub);
    assert!(folder_matches(&a, "data"));
    assert!(folder_matches(&a, "serv"));
    assert!(!folder_matches(&a, "web"));
    assert!(folder_shown(&a, ""));
    assert_eq!(custom_group_section_id("g1"), "custom:g1");
}

#[test]
fn tailscale_section_groups_devices() {
    let devices = vec![device("web-1", "bob", false), device("me", "alice", true), device("db", "", false), device("Web-2", "alice", false)];
    let peers = visible_peers(&devices, &vec!["db".to_string()]);
    assert_eq!(peers.iter().map(|d| d.hostname.as_str()).collect::<Vec<_>>(), vec!["web-1", "Web-2"]);
    let web = group_members(&peers, "web-*", "");
    assert_eq!(web.len(), 2);
    assert_eq!(group_members(&peers, "web-*", "2").len(), 1);
    let rest = ungrouped_devices(&devices, &vec!["web-1".to_string()], "");
    assert_eq!(rest.len(), 3);
    let owners = devices_by_owner(&devices, "Unknown");
    let names: Vec<&str> = owners.iter().map(|g| g.0.as_str()).collect();
    assert_eq!(names, vec!["Unknown", "alice", "bob"]);
    assert_eq!(owners[1].1.len(), 2);
}

#[test]
fn remote_paths_are_normalized_joined_and_split() {
    assert_eq!(normalize_remote_path("  "), "/");
    assert_eq!(normalize_remote_path(" a\\b "), "a/b");
    assert_eq!(remote_join("/", "/x/"), "/x");
    assert_eq!(remote_join("/srv/", "data"), "/srv/data");
    assert_eq!(remote_parent("/a/b"), Some("/a".to_string()));
    assert_eq!(remote_parent("/a"), Some("/".to_string()));
    assert_eq!(remote_parent("a"), None);
    assert_eq!(basename_remote("/srv/data/"), Some("data".to_string()));
    assert_eq!(basename_remote("/"), None);
    assert_eq!(remote_dir_prefixes("/a//b/c"), vec!["/a", "/a/b", "/a/b/c"]);
    assert_eq!(remote_dir_prefixes("x/y"), vec!["x", "x/y"]);
    assert!(remote_dir_prefixes(" ").is_empty());
    assert_eq!(remote_relative_path("/root/sub/f.txt", "/root", "f.txt"), "sub/f.txt");
    assert_eq!(remote_relative_path("/other/f.txt", "/root", "f.txt"), "f.txt");
}

#[test]
fn remote_sources_split_on_lines_and_commas() {
    assert_eq!(parse_remote_sources(" /a, /b\n\n/c ,\r\n"), vec!["/a", "/b", "/c"]);
    assert!(parse_remote_sources(" , \n").is_empty());
}
