use vstd::prelude::*;

use crate::domain::connection::{AuthMethod, SavedConnection};
use crate::domain::folder_tree::{
    changed_at, connection_removed, find_folder_mut, folder_path, lemma_changed_at_weaken,
    remove_connection, same_but_connections,
};
use crate::domain::types::ForwardType;
use crate::services::config::{new_uuid, AppConfig, Folder};
use crate::services::crypto::EncryptedSecret;
use crate::services::ssh::PortForwardRule;
use crate::text::{chars_of, parse_u16, spec_parse_u16, string_from_chars, trim, trim_chars};
use crate::ui::scp::{parse_remote_sources, spec_remote_sources};
use crate::state::dialogs::{ScpAuthModeState, ScpDirectionState};

verus! {

/// A port typed into a form: its number where it parses, 22 otherwise.
pub open spec fn spec_port_or_default(text: Seq<char>) -> u16 {
    match spec_parse_u16(text) {
        Some(p) => p,
        None => 22,
    }
}

/// A port shown in a form (as the connect prompt shows a saved connection's port) reads back
/// as the same port; text that is no port number reads as 22.
pub proof fn lemma_port_reads_back(p: u16, text: Seq<char>)
    ensures
        spec_port_or_default(crate::text::decimal(p as nat)) == p,
        spec_parse_u16(text) is None ==> spec_port_or_default(text) == 22,
{
    crate::text::lemma_parse_u16_decimal(p);
}

/// A port typed into a form, 22 where it does not parse.
pub fn port_or_default(text: &str) -> (p: u16)
    ensures
        p == spec_port_or_default(text@),
{
    match parse_u16(text) {
        Some(p) => p,
        None => 22,
    }
}

/// The host the connect prompt connects to: the DNS name where asked for and known, else the
/// address.
pub fn prompt_host(use_dns: bool, dns_name: &str, host: &str) -> (h: String)
    ensures
        h@ == (if use_dns && dns_name@.len() > 0 {
            dns_name@
        } else {
            host@
        }),
{
    if use_dns && dns_name.unicode_len() > 0 {
        String::from_str(dns_name)
    } else {
        String::from_str(host)
    }
}

/// Whether the connect prompt can connect: it needs a user name and a host.
pub fn can_connect(username: &str, host: &str) -> (r: bool)
    ensures
        r == (username@.len() > 0 && host@.len() > 0),
{
    username.unicode_len() > 0 && host.unicode_len() > 0
}

/// A new, enabled port forward from the session-settings form, with a fresh id and trimmed
/// hosts; none where a port does not parse.
pub fn new_forward_rule(
    kind: ForwardType,
    listen_host: &str,
    listen_port: &str,
    target_host: &str,
    target_port: &str,
) -> (r: Option<PortForwardRule>)
    ensures
        match (spec_parse_u16(listen_port@), spec_parse_u16(target_port@)) {
            (Some(lp), Some(tp)) => r matches Some(rule) && rule.id@.len() == 36 && rule.kind == kind
                && rule.listen_host@ == trim(listen_host@) && rule.listen_port == lp
                && rule.target_host@ == trim(target_host@) && rule.target_port == tp && rule.enabled,
            _ => r is None,
        },
{
    match (parse_u16(listen_port), parse_u16(target_port)) {
        (Some(lp), Some(tp)) => Some(
            PortForwardRule {
                id: new_uuid(),
                kind,
                listen_host: string_from_chars(&trim_chars(&chars_of(listen_host))),
                listen_port: lp,
                target_host: string_from_chars(&trim_chars(&chars_of(target_host))),
                target_port: tp,
                enabled: true,
            },
        ),
        _ => None,
    }
}

/// Whether the transfer dialog can start: a host and a user (not only blanks), sources and a
/// destination for the chosen direction (remote sources as typed, after splitting), and a key
/// path or a password for those methods.
pub open spec fn spec_scp_can_start(
    host: Seq<char>,
    username: Seq<char>,
    direction: ScpDirectionState,
    local_sources: nat,
    remote_destination: Seq<char>,
    remote_sources: Seq<char>,
    local_destination: Seq<char>,
    auth_mode: ScpAuthModeState,
    key_path: Seq<char>,
    password: Seq<char>,
) -> bool {
    &&& trim(host).len() > 0
    &&& trim(username).len() > 0
    &&& match direction {
        ScpDirectionState::LocalToRemote => local_sources > 0 && trim(remote_destination).len() > 0,
        ScpDirectionState::RemoteToLocal => spec_remote_sources(remote_sources).len() > 0
            && trim(local_destination).len() > 0,
    }
    &&& match auth_mode {
        ScpAuthModeState::Key => trim(key_path).len() > 0,
        ScpAuthModeState::Password => password.len() > 0,
        ScpAuthModeState::Agent => true,
    }
}

fn blank(s: &str) -> (r: bool)
    ensures
        r == (trim(s@).len() == 0),
{
    trim_chars(&chars_of(s)).len() == 0
}

/// Whether the transfer dialog can start.
pub fn scp_can_start(
    host: &str,
    username: &str,
    direction: ScpDirectionState,
    local_sources: &Vec<String>,
    remote_destination: &str,
    remote_sources: &str,
    local_destination: &str,
    auth_mode: ScpAuthModeState,
    key_path: &str,
    password: &str,
) -> (r: bool)
    ensures
        r == spec_scp_can_start(
            host@,
            username@,
            direction,
            local_sources@.len(),
            remote_destination@,
            remote_sources@,
            local_destination@,
            auth_mode,
            key_path@,
            password@,
        ),
{
    let host_ok = !blank(host);
    let user_ok = !blank(username);
    let direction_ok = match direction {
        ScpDirectionState::LocalToRemote => local_sources.len() > 0 && !blank(remote_destination),
        ScpDirectionState::RemoteToLocal => {
            let sources = parse_remote_sources(remote_sources);
            proof {
                assert(sources@.len() == crate::text::texts(sources@).len());
            }
            sources.len() > 0 && !blank(local_destination)
        },
    };
    let auth_ok = match auth_mode {
        ScpAuthModeState::Key => !blank(key_path),
        ScpAuthModeState::Password => password.unicode_len() > 0,
        ScpAuthModeState::Agent => true,
    };
    host_ok && user_ok && direction_ok && auth_ok
}

/// What saving the connection editor does about the password.
#[derive(Debug, Clone, Copy, PartialEq, Eq, Structural)]
pub enum PasswordPlan {
    /// Key authentication: no password is stored.
    NotNeeded,
    /// A master password exists but is locked: unlock it first.
    UnlockFirst,
    /// No master password exists: create one first.
    CreateFirst,
    /// Seal the typed password with the master key.
    Seal,
    /// Keep the sealed password the connection already has.
    KeepExisting,
    /// No password was typed and none is stored: refuse.
    Missing,
}

/// What saving the connection editor does about the password: nothing for key
/// authentication; else the master key must be open (unlock or create it first), then a typed
/// password is sealed, or the stored one kept, or the save refused.
pub open spec fn spec_password_plan(
    use_key: bool,
    has_master_key: bool,
    has_master_config: bool,
    password_typed: bool,
    has_existing: bool,
) -> PasswordPlan {
    if use_key {
        PasswordPlan::NotNeeded
    } else if !has_master_key {
        if has_master_config {
            PasswordPlan::UnlockFirst
        } else {
            PasswordPlan::CreateFirst
        }
    } else if password_typed {
        PasswordPlan::Seal
    } else if has_existing {
        PasswordPlan::KeepExisting
    } else {
        PasswordPlan::Missing
    }
}

pub fn password_plan(
    use_key: bool,
    has_master_key: bool,
    has_master_config: bool,
    password_typed: bool,
    has_existing: bool,
) -> (p: PasswordPlan)
    ensures
        p == spec_password_plan(use_key, has_master_key, has_master_config, password_typed, has_existing),
{
    if use_key {
        PasswordPlan::NotNeeded
    } else if !has_master_key {
        if has_master_config {
            PasswordPlan::UnlockFirst
        } else {
            PasswordPlan::CreateFirst
        }
    } else if password_typed {
        PasswordPlan::Seal
    } else if has_existing {
        PasswordPlan::KeepExisting
    } else {
        PasswordPlan::Missing
    }
}

/// The connection that the editor saves, apart from its id: the typed fields, the port (22
/// where it does not parse), key authentication with the typed path or password
/// authentication, the sealed password and the tint.
pub open spec fn edited_connection(
    c: SavedConnection,
    display_name: Seq<char>,
    host: Seq<char>,
    port: Seq<char>,
    username: Seq<char>,
    use_key: bool,
    key_path: Seq<char>,
    sealed: Option<EncryptedSecret>,
    tint: Option<[u8; 4]>,
) -> bool {
    &&& c.display_name@ == display_name
    &&& c.host@ == host
    &&& c.port == spec_port_or_default(port)
    &&& c.username@ == username
    &&& (if use_key {
        c.auth matches AuthMethod::Key { path, passphrase_required } && path@ == key_path && !passphrase_required
    } else {
        c.auth == AuthMethod::Password
    })
    &&& c.encrypted_password == sealed
    &&& c.text_tint_rgba == tint
}

/// Stores the connection the editor saves: an edited connection first leaves the tree (by its
/// id); the connection, under that id or a fresh one, goes to the end of the target folder, or
/// of the first top-level folder where there is no target; without any folder it is dropped.
pub fn store_edited_connection(
    config: &mut AppConfig,
    editing_id: Option<String>,
    display_name: String,
    host: String,
    port: &str,
    username: String,
    use_key: bool,
    key_path: String,
    sealed: Option<EncryptedSecret>,
    tint: Option<[u8; 4]>,
    target_folder_id: &str,
) -> (c: SavedConnection)
    requires
        editing_id is None ==> old(config).next_id < u64::MAX,
    ensures
        edited_connection(c, display_name@, host@, port@, username@, use_key, key_path@, sealed, tint),
        match editing_id {
            Some(id) => c.id == id && final(config).next_id == old(config).next_id,
            None => c.id@.len() == 36 && final(config).next_id == old(config).next_id + 1,
        },
        *final(config) == (AppConfig { folders: final(config).folders, next_id: final(config).next_id, ..*old(config) }),
        exists|mid: Seq<Folder>|
            #![trigger folder_path(mid, target_folder_id@)]
            (match editing_id {
                Some(id) => connection_removed(old(config).folders@, mid, id@),
                None => mid == old(config).folders@,
            }) && match folder_path(mid, target_folder_id@) {
                Some(p) => changed_at(
                    mid,
                    final(config).folders@,
                    p,
                    |a: Folder, b: Folder| same_but_connections(a, b) && b.connections@ == a.connections@.push(c),
                ),
                None => if mid.len() > 0 {
                    changed_at(
                        mid,
                        final(config).folders@,
                        seq![0int],
                        |a: Folder, b: Folder| same_but_connections(a, b) && b.connections@ == a.connections@.push(c),
                    )
                } else {
                    final(config).folders@ == mid
                },
            },
{
    let ghost start = config.folders@;
    let id = match editing_id {
        Some(eid) => {
            let _ = remove_connection(&mut config.folders, eid.as_str());
            eid
        },
        None => config.generate_id(),
    };
    let ghost mid = config.folders@;
    let auth = if use_key {
        AuthMethod::Key { path: key_path, passphrase_required: false }
    } else {
        AuthMethod::Password
    };
    let conn = SavedConnection {
        id,
        display_name,
        host,
        port: port_or_default(port),
        username,
        auth,
        encrypted_password: sealed,
        text_tint_rgba: tint,
    };
    let result = conn.clone();
    let ghost c = conn;
    match find_folder_mut(&mut config.folders, target_folder_id) {
        Some(folder) => {
            folder.connections.push(conn);
            proof {
                let p = folder_path(mid, target_folder_id@)->0;
                lemma_changed_at_weaken(
                    mid,
                    p,
                    |a: Folder, b: Folder| b == *folder,
                    |a: Folder, b: Folder| same_but_connections(a, b) && b.connections@ == a.connections@.push(c),
                );
            }
        },
        None => {
            if config.folders.len() > 0 {
                let first = &mut config.folders[0];
                first.connections.push(conn);
                proof {
                    let p = seq![0int];
                    assert(p.len() == 1 && p[0] == 0);
                }
            }
        },
    }
    result
}

} // verus!
