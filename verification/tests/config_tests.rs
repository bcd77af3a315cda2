use termii::services::config::{export_from_xml_nodes, XmlAttribute, XmlNode};
use termii::state::actions::apply_import;
use termii::domain::connection::{AuthMethod, SavedConnection};
use termii::domain::folder_tree::{find_connection, find_folder_mut, remove_connection, remove_folder};
use termii::services::config::{
    clone_folders, config_path, export_servers, has_encrypted_passwords, import_servers,
    looks_like_superputty_xml, validate_password_auth_storage, AppConfig, ConfigError, Folder,
    ServerExport,
};
use termii::services::crypto::EncryptedSecret;

fn connection(id: &str, auth: AuthMethod, sealed: bool) -> SavedConnection {
    SavedConnection {
        id: id.to_string(),
        display_name: "Test".to_string(),
        host: "1.2.3.4".to_string(),
        port: 22,
        username: "root".to_string(),
        auth,
        encrypted_password: if sealed {
            Some(EncryptedSecret { nonce_b64: "abc".to_string(), ciphertext_b64: "def".to_string() })
        } else {
            None
        },
        text_tint_rgba: None,
    }
}

fn folder(id: &str, name: &str) -> Folder {
    Folder {
        id: id.to_string(),
        name: name.to_string(),
        connections: Vec::new(),
        subfolders: Vec::new(),
        expanded: true,
        text_tint_rgba: None,
    }
}

#[test]
fn test_default_config_serialization() {
    let parsed = AppConfig::default();
    assert_eq!(parsed.version, 1);
    assert_eq!(parsed.folders.len(), 1);
    assert!(parsed.disable_tailscale_auto_discovery);
    assert!(!parsed.connect_instances_on_open);
    assert!(!parsed.auto_discover_private_keys);
}

#[test]
fn test_find_folder_mut() {
    let mut cfg = AppConfig::default();
    let id = cfg.folders[0].id.clone();
    assert!(find_folder_mut(&mut cfg.folders, &id).is_some());
    assert!(find_folder_mut(&mut cfg.folders, "nonexistent").is_none());
}

#[test]
fn test_remove_connection() {
    let mut cfg = AppConfig::default();
    cfg.folders[0].connections.push(connection("c1", AuthMethod::Agent, false));
    assert!(remove_connection(&mut cfg.folders, "c1").is_some());
    assert!(cfg.folders[0].connections.is_empty());
}

#[test]
fn test_export_omits_master_password_when_not_needed() {
    let cfg = AppConfig::default();
    let export = ServerExport {
        version: 1,
        exported_at_utc: "2026-01-01T00:00:00Z".to_string(),
        folders: clone_folders(&cfg.folders),
        master_password: if has_encrypted_passwords(&cfg.folders) {
            cfg.master_password.clone()
        } else {
            None
        },
    };
    assert!(export.master_password.is_none());
}

#[test]
fn test_validate_rejects_encrypted_without_master_password() {
    let mut cfg = AppConfig::default();
    cfg.folders[0].connections.push(connection("c1", AuthMethod::Password, true));
    let export = ServerExport {
        version: 1,
        exported_at_utc: "2026-01-01T00:00:00Z".to_string(),
        folders: clone_folders(&cfg.folders),
        master_password: None,
    };
    let result = import_servers("{\"version\": 1}", Ok(export));
    assert!(result.is_err());
}

#[test]
fn test_import_superputty_xml() {
    let xml = r#"<?xml version="1.0" encoding="utf-8"?>
<ArrayOfSessionData xmlns:xsd="http://www.w3.org/2001/XMLSchema" xmlns:xsi="http://www.w3.org/2001/XMLSchema-instance">
  <SessionData SessionId="Channing/chan-immich" SessionName="chan-immich" Host="192.168.1.205" Port="22" Proto="SSH" Username="ubuntu" />
  <SessionData SessionId="Velbit/prod" SessionName="prod" Host="100.64.0.42" Port="22" Proto="SSH" Username="ubuntu" />
</ArrayOfSessionData>"#;

    let imported = import_servers(xml, Err("not json".to_string())).expect("import xml");

    assert_eq!(imported.version, 1);
    assert!(imported.master_password.is_none());

    let mut total = 0usize;
    let mut has_channing = false;
    let mut has_velbit = false;
    for folder in &imported.folders {
        if folder.name == "Channing" {
            has_channing = true;
        }
        if folder.name == "Velbit" {
            has_velbit = true;
        }
        total += folder.connections.len();
    }

    assert!(has_channing);
    assert!(has_velbit);
    assert_eq!(total, 2);
}

#[test]
fn superputty_sessions_keep_host_user_and_port() {
    let xml = r#"<ArrayOfSessionData><SessionData SessionId="Lab/box" SessionName="box" Host="10.0.0.9" Port="2222" Username="admin" /></ArrayOfSessionData>"#;
    let imported = import_servers(xml, Err("not json".to_string())).expect("import xml");
    assert_eq!(imported.folders.len(), 1);
    assert_eq!(imported.folders[0].name, "Lab");
    let c = &imported.folders[0].connections[0];
    assert_eq!(c.display_name, "box");
    assert_eq!(c.host, "10.0.0.9");
    assert_eq!(c.port, 2222);
    assert_eq!(c.username, "admin");
}

#[test]
fn superputty_without_sessions_is_refused() {
    let xml = "<ArrayOfSessionData></ArrayOfSessionData>";
    assert!(looks_like_superputty_xml(xml));
    let r = import_servers(xml, Err("not json".to_string()));
    assert!(matches!(r, Err(ConfigError::NoSessionData)));
}

#[test]
fn broken_xml_is_refused_as_xml() {
    let xml = "<ArrayOfSessionData><SessionData";
    let r = import_servers(xml, Err("not json".to_string()));
    assert!(matches!(r, Err(ConfigError::InvalidXml(_))));
}

#[test]
fn broken_json_is_refused_as_json() {
    let r = import_servers("{ nope", Err("expected value".to_string()));
    match r {
        Err(ConfigError::InvalidJson(m)) => assert_eq!(m, "expected value"),
        _ => panic!("expected a JSON error"),
    }
}

#[test]
fn unsupported_export_version_is_refused() {
    let export = ServerExport {
        version: 2,
        exported_at_utc: String::new(),
        folders: Vec::new(),
        master_password: None,
    };
    let r = import_servers("{}", Ok(export));
    assert!(matches!(r, Err(ConfigError::UnsupportedExportVersion { found: 2 })));
}

#[test]
fn password_auth_needs_a_sealed_password() {
    let mut folders = vec![folder("f1", "Main")];
    folders[0].connections.push(connection("c1", AuthMethod::Password, false));
    assert!(matches!(
        validate_password_auth_storage(&folders),
        Err(ConfigError::PasswordWithoutStoredSecret)
    ));
    folders[0].connections[0].encrypted_password =
        Some(EncryptedSecret { nonce_b64: "n".to_string(), ciphertext_b64: "c".to_string() });
    assert!(validate_password_auth_storage(&folders).is_ok());
}

#[test]
fn export_keeps_master_password_only_when_sealed_passwords_exist() {
    let mut cfg = AppConfig::default();
    let plain = export_servers(&cfg).expect("export");
    assert!(plain.master_password.is_none());
    assert_eq!(plain.folders.len(), 1);
    cfg.folders[0].connections.push(connection("c1", AuthMethod::Password, true));
    let r = export_servers(&cfg);
    assert!(matches!(r, Err(ConfigError::EncryptedWithoutMasterPassword)));
}

#[test]
fn nested_folders_are_searched_and_removed() {
    let mut root = folder("a", "A");
    let mut sub = folder("b", "B");
    sub.connections.push(connection("deep", AuthMethod::Agent, false));
    root.subfolders.push(sub);
    let mut folders = vec![root];
    assert!(find_connection(&folders, "deep").is_some());
    assert!(find_folder_mut(&mut folders, "b").is_some());
    assert!(remove_folder(&mut folders, "b"));
    assert!(folders[0].subfolders.is_empty());
    assert!(find_connection(&folders, "deep").is_none());
    assert!(!remove_folder(&mut folders, "b"));
}

#[test]
fn config_path_joins_with_one_separator() {
    assert_eq!(config_path("/home/u/.config/termii"), "/home/u/.config/termii/config.json");
    assert_eq!(config_path("/tmp/"), "/tmp/config.json");
}

#[test]
fn generate_id_counts_and_gives_uuids() {
    let mut cfg = AppConfig::default();
    let a = cfg.generate_id();
    let b = cfg.generate_id();
    assert_eq!(a.len(), 36);
    assert_ne!(a, b);
    assert_eq!(cfg.next_id, 3);
}

#[test]
fn an_export_reads_back_unchanged() {
    let mut cfg = AppConfig::default();
    cfg.folders[0].connections.push(connection("k1", AuthMethod::Agent, false));
    let export = export_servers(&cfg).expect("export");
    let stamp = export.exported_at_utc.clone();
    let read = import_servers("{\"version\": 1}", Ok(export)).expect("read back");
    assert_eq!(read.version, 1);
    assert_eq!(read.exported_at_utc, stamp);
    assert_eq!(read.folders.len(), 1);
    assert_eq!(read.folders[0].connections[0].id, "k1");
    assert!(read.master_password.is_none());
}

#[test]
fn importing_replaces_the_tree_and_asks_for_unlock_only_with_sealed_passwords() {
    let mut cfg = AppConfig::default();
    cfg.next_id = 7;
    let mut f = folder("f1", "Imported");
    f.connections.push(connection("p1", AuthMethod::Password, true));
    let plain = ServerExport { version: 1, exported_at_utc: String::new(), folders: vec![folder("f0", "Plain")], master_password: None };
    assert!(!apply_import(&mut cfg, plain));
    assert_eq!(cfg.folders[0].id, "f0");
    assert_eq!(cfg.next_id, 7);
    let sealed = ServerExport { version: 1, exported_at_utc: String::new(), folders: vec![f], master_password: None };
    assert!(apply_import(&mut cfg, sealed));
    assert_eq!(cfg.folders[0].id, "f1");
    assert!(cfg.master_password.is_none());
}

#[test]
fn default_config_has_one_empty_folder_with_a_fresh_id() {
    let cfg = AppConfig::default();
    assert_eq!(cfg.folders.len(), 1);
    assert_eq!(cfg.folders[0].id.len(), 36);
    assert!(cfg.folders[0].connections.is_empty());
    assert!(cfg.folders[0].subfolders.is_empty());
    assert!(cfg.folders[0].expanded);
    assert_eq!(cfg.next_id, 1);
    assert!(!has_encrypted_passwords(&cfg.folders));
}

fn node(name: &str, attrs: &[(&str, &str)]) -> XmlNode {
    XmlNode {
        local_name: name.to_string(),
        attributes: attrs
            .iter()
            .map(|(k, v)| XmlAttribute { namespace: None, name: k.to_string(), value: v.to_string() })
            .collect(),
    }
}

#[test]
fn parsed_sessions_become_folders() {
    let nodes = vec![
        node("ArrayOfSessionData", &[]),
        node("SessionData", &[("SessionId", "Lab/web"), ("SessionName", "web"), ("Host", "10.0.0.5"), ("Port", "2222"), ("Username", "ops")]),
    ];
    let export = export_from_xml_nodes(nodes).expect("export");
    assert_eq!(export.version, 1);
    assert!(export.master_password.is_none());
    assert_eq!(export.folders.len(), 1);
    assert_eq!(export.folders[0].name, "Lab");
    let c = &export.folders[0].connections[0];
    assert_eq!((c.display_name.as_str(), c.host.as_str(), c.port, c.username.as_str()), ("web", "10.0.0.5", 2222, "ops"));
    assert!(matches!(export_from_xml_nodes(vec![node("ArrayOfSessionData", &[])]), Err(ConfigError::NoSessionData)));
}
