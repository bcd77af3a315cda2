use vstd::prelude::*;

use crate::domain::connection::{AuthMethod, SavedConnection};
use crate::services::crypto::{decrypt_outcome, decrypt_secret};
use crate::services::tailscale::TailscaleDevice;
use crate::state::dialogs::ScpAuthModeState;
use crate::text::{decimal, decimal_string};

verus! {

/// The credentials a session is started with.
#[derive(Debug)]
pub enum AuthPlan {
    /// A private key file, without passphrase.
    Key { path: String },
    Password(String),
    /// The agent; `auto_discover_keys` lets the session try the keys of the ssh directory.
    Agent { auto_discover_keys: bool },
}

/// The authentication method a session records for its credentials: a key without a
/// passphrase required, a password, or the agent.
pub open spec fn spec_auth_method_of(plan: AuthPlan) -> AuthMethod {
    match plan {
        AuthPlan::Key { path } => AuthMethod::Key { path, passphrase_required: false },
        AuthPlan::Password(_) => AuthMethod::Password,
        AuthPlan::Agent { .. } => AuthMethod::Agent,
    }
}

/// The authentication method a session records for its credentials.
pub fn auth_method_of(plan: &AuthPlan) -> (m: AuthMethod)
    ensures
        m == spec_auth_method_of(*plan),
{
    match plan {
        AuthPlan::Key { path } => AuthMethod::Key { path: path.clone(), passphrase_required: false },
        AuthPlan::Password(_) => AuthMethod::Password,
        AuthPlan::Agent { .. } => AuthMethod::Agent,
    }
}

/// What the connect prompt shows when it opens.
#[derive(Debug)]
pub struct ConnectPromptFields {
    pub host: String,
    pub dns_name: String,
    pub device_name: String,
    pub username: String,
    pub port: String,
    pub use_key: bool,
    pub key_path: String,
    pub password: String,
    pub use_dns: bool,
}

/// Opening a saved connection: start the session at once, or ask in the connect prompt.
#[derive(Debug)]
pub enum ConnectPlan {
    Open(AuthPlan),
    Prompt(ConnectPromptFields),
}

/// The password stored for `c`, unsealed with the master key: none without a key, without a
/// stored password, or where unsealing fails.
pub open spec fn spec_saved_password(master_key: Option<Seq<u8>>, c: SavedConnection) -> Option<Seq<char>> {
    match (master_key, c.encrypted_password) {
        (Some(k), Some(e)) => match decrypt_outcome(k, e) {
            Ok(t) => Some(t),
            Err(_) => None,
        },
        _ => None,
    }
}

pub open spec fn opt_text(o: Option<String>) -> Option<Seq<char>> {
    match o {
        Some(s) => Some(s@),
        None => None,
    }
}

/// The stored password of a saved connection, unsealed with the master key where there is one.
pub fn saved_password(master_key: Option<&[u8; 32]>, conn: &SavedConnection) -> (r: Option<String>)
    ensures
        opt_text(r) == spec_saved_password(
            match master_key {
                Some(k) => Some(k@),
                None => None,
            },
            *conn,
        ),
{
    match (master_key, &conn.encrypted_password) {
        (Some(key), Some(enc)) => match decrypt_secret(key, enc) {
            Ok(s) => Some(s),
            Err(_) => None,
        },
        _ => None,
    }
}

/// The key path to use: the saved one, or the default where none is saved.
pub open spec fn resolved_key_path(path: Seq<char>, default_key: Seq<char>) -> Seq<char> {
    if path.len() == 0 {
        default_key
    } else {
        path
    }
}

fn resolve_key_path(path: &String, default_key: &str) -> (r: String)
    ensures
        r@ == resolved_key_path(path@, default_key@),
{
    if path.as_str().unicode_len() == 0 {
        String::from_str(default_key)
    } else {
        path.clone()
    }
}

/// Whether a saved connection can be started without asking: it names a user, and a key path
/// (its own or the default one), an unsealed password, or the agent is at hand.
pub open spec fn can_connect_directly(c: SavedConnection, password: Option<Seq<char>>, default_key: Seq<char>) -> bool {
    &&& c.username@.len() > 0
    &&& match c.auth {
        AuthMethod::Key { path, .. } => path@.len() > 0 || default_key.len() > 0,
        AuthMethod::Password => password is Some,
        AuthMethod::Agent => true,
    }
}

/// The connect prompt for a saved connection: its host, name, user and port, the key choice
/// of its method (the resolved key path for key authentication, the default key otherwise) and
/// the unsealed password, if any.
pub open spec fn prompt_for_saved_fields(
    f: ConnectPromptFields,
    c: SavedConnection,
    password: Option<Seq<char>>,
    default_key: Seq<char>,
) -> bool {
    &&& f.host@ == c.host@
    &&& f.dns_name@.len() == 0
    &&& f.device_name@ == c.display_name@
    &&& f.username@ == c.username@
    &&& f.port@ == decimal(c.port as nat)
    &&& f.use_key == (c.auth is Key)
    &&& f.key_path@ == match c.auth {
        AuthMethod::Key { path, .. } => resolved_key_path(path@, default_key),
        _ => default_key,
    }
    &&& f.password@ == match password {
        Some(p) => p,
        None => Seq::empty(),
    }
    &&& !f.use_dns
}

/// The connect prompt for a saved connection.
pub fn prompt_for_saved(conn: &SavedConnection, password: Option<String>, default_key: &str) -> (f: ConnectPromptFields)
    ensures
        prompt_for_saved_fields(f, *conn, opt_text(password), default_key@),
{
    let (use_key, key_path) = match &conn.auth {
        AuthMethod::Key { path, .. } => (true, resolve_key_path(path, default_key)),
        _ => (false, String::from_str(default_key)),
    };
    ConnectPromptFields {
        host: conn.host.clone(),
        dns_name: String::new(),
        device_name: conn.display_name.clone(),
        username: conn.username.clone(),
        port: decimal_string(conn.port as u64),
        use_key,
        key_path,
        password: match password {
            Some(p) => p,
            None => String::new(),
        },
        use_dns: false,
    }
}

/// The credentials for starting a saved connection at once.
pub open spec fn direct_auth(a: AuthPlan, c: SavedConnection, password: Option<Seq<char>>, default_key: Seq<char>, auto_discover_keys: bool) -> bool {
    match c.auth {
        AuthMethod::Key { path, .. } => a matches AuthPlan::Key { path: p } && p@ == resolved_key_path(path@, default_key),
        AuthMethod::Agent => a == AuthPlan::Agent { auto_discover_keys },
        AuthMethod::Password => a matches AuthPlan::Password(p) && p@ == match password {
            Some(t) => t,
            None => Seq::empty(),
        },
    }
}

/// How to open a saved connection, given its unsealed password (if any), the default key path
/// and whether agent sessions may try the keys of the ssh directory.
pub fn connect_saved_plan(conn: &SavedConnection, password: Option<String>, default_key: &str, auto_discover_keys: bool) -> (plan: ConnectPlan)
    ensures
        can_connect_directly(*conn, opt_text(password), default_key@) ==> (plan matches ConnectPlan::Open(a)
            && direct_auth(a, *conn, opt_text(password), default_key@, auto_discover_keys)),
        !can_connect_directly(*conn, opt_text(password), default_key@) ==> (plan matches ConnectPlan::Prompt(f)
            && prompt_for_saved_fields(f, *conn, opt_text(password), default_key@)),
{
    let can_direct = conn.username.as_str().unicode_len() > 0 && match &conn.auth {
        AuthMethod::Key { path, .. } => path.as_str().unicode_len() > 0 || default_key.unicode_len() > 0,
        AuthMethod::Password => password.is_some(),
        AuthMethod::Agent => true,
    };
    if can_direct {
        let auth = match &conn.auth {
            AuthMethod::Key { path, .. } => AuthPlan::Key { path: resolve_key_path(path, default_key) },
            AuthMethod::Agent => AuthPlan::Agent { auto_discover_keys },
            AuthMethod::Password => AuthPlan::Password(
                match password {
                    Some(p) => p,
                    None => String::new(),
                },
            ),
        };
        ConnectPlan::Open(auth)
    } else {
        ConnectPlan::Prompt(prompt_for_saved(conn, password, default_key))
    }
}

/// The credentials for restarting or cloning a session that was started with `method`: none
/// for password sessions, which ask again.
pub fn auth_plan_from_method(method: &AuthMethod, default_key: &str, auto_discover_keys: bool) -> (r: Option<AuthPlan>)
    ensures
        match *method {
            AuthMethod::Key { path, .. } => r matches Some(AuthPlan::Key { path: p }) && p@ == resolved_key_path(path@, default_key@),
            AuthMethod::Agent => r == Some(AuthPlan::Agent { auto_discover_keys }),
            AuthMethod::Password => r is None,
        },
{
    match method {
        AuthMethod::Key { path, .. } => Some(AuthPlan::Key { path: resolve_key_path(path, default_key) }),
        AuthMethod::Agent => Some(AuthPlan::Agent { auto_discover_keys }),
        AuthMethod::Password => None,
    }
}

/// The connect prompt for restarting or cloning a password session: its host, name, user and
/// port, password authentication, the default key path, empty secrets.
pub fn prompt_for_password_session(name: String, host: String, port: u16, username: String, default_key: &str) -> (f: ConnectPromptFields)
    ensures
        f.host == host,
        f.dns_name@.len() == 0,
        f.device_name == name,
        f.username == username,
        f.port@ == decimal(port as nat),
        !f.use_key,
        f.key_path@ == default_key@,
        f.password@.len() == 0,
        !f.use_dns,
{
    ConnectPromptFields {
        host,
        dns_name: String::new(),
        device_name: name,
        username,
        port: decimal_string(port as u64),
        use_key: false,
        key_path: String::from_str(default_key),
        password: String::new(),
        use_dns: false,
    }
}

/// The connect prompt for a Tailscale device: its first address (none where it has none), its
/// DNS and host names, port 22, key authentication with the default key, no user name.
pub fn prompt_for_device(device: &TailscaleDevice, default_key: &str) -> (f: ConnectPromptFields)
    ensures
        f.host@ == (if device.addresses@.len() > 0 {
            device.addresses@[0]@
        } else {
            Seq::empty()
        }),
        f.dns_name@ == device.dns_name@,
        f.device_name@ == device.hostname@,
        f.username@.len() == 0,
        f.port@ == "22"@,
        f.use_key,
        f.key_path@ == default_key@,
        f.password@.len() == 0,
        !f.use_dns,
{
    ConnectPromptFields {
        host: if device.addresses.len() > 0 {
            device.addresses[0].clone()
        } else {
            String::new()
        },
        dns_name: device.dns_name.clone(),
        device_name: device.hostname.clone(),
        username: String::new(),
        port: String::from_str("22"),
        use_key: true,
        key_path: String::from_str(default_key),
        password: String::new(),
        use_dns: false,
    }
}

/// The file-transfer authentication of a saved connection and the key path to show: its own
/// resolved key path for key authentication, the default key otherwise.
pub fn scp_auth_for_saved(conn: &SavedConnection, default_key: &str) -> (r: (ScpAuthModeState, String))
    ensures
        match conn.auth {
            AuthMethod::Key { path, .. } => r.0 == ScpAuthModeState::Key && r.1@ == resolved_key_path(path@, default_key@),
            AuthMethod::Password => r.0 == ScpAuthModeState::Password && r.1@ == default_key@,
            AuthMethod::Agent => r.0 == ScpAuthModeState::Agent && r.1@ == default_key@,
        },
{
    match &conn.auth {
        AuthMethod::Key { path, .. } => (ScpAuthModeState::Key, resolve_key_path(path, default_key)),
        AuthMethod::Password => (ScpAuthModeState::Password, String::from_str(default_key)),
        AuthMethod::Agent => (ScpAuthModeState::Agent, String::from_str(default_key)),
    }
}

/// A password sealed for a connection reads back with the key it was sealed under; without a
/// key or without a sealed password there is none to read.
pub proof fn lemma_saved_password_reads_back(key: Seq<u8>, c: SavedConnection, text: Seq<char>)
    ensures
        (c.encrypted_password matches Some(e) && decrypt_outcome(key, e) == Ok::<Seq<char>, crate::services::crypto::CryptoError>(text))
            ==> spec_saved_password(Some(key), c) == Some(text),
        spec_saved_password(None, c) is None,
        c.encrypted_password is None ==> spec_saved_password(Some(key), c) is None,
{
}

/// `a` starts the session with the key file at `path`.
pub open spec fn opens_with_key(a: AuthPlan, path: Seq<char>) -> bool {
    match a {
        AuthPlan::Key { path: p } => p@ == path,
        _ => false,
    }
}

/// `a` starts the session with the password `t`.
pub open spec fn opens_with_password(a: AuthPlan, t: Seq<char>) -> bool {
    match a {
        AuthPlan::Password(p) => p@ == t,
        _ => false,
    }
}

/// Opening a saved connection at once needs a user name. With one, an agent connection opens
/// with the agent; a key connection opens with its own key path, or with the default key when
/// it has none (and asks when neither is there); a password connection opens with its
/// unsealed password, and asks without one.
pub proof fn lemma_open_at_once(c: SavedConnection, password: Option<Seq<char>>, default_key: Seq<char>, auto: bool, a: AuthPlan)
    ensures
        c.username@.len() == 0 ==> !can_connect_directly(c, password, default_key),
        c.username@.len() > 0 ==> match c.auth {
            AuthMethod::Agent => can_connect_directly(c, password, default_key) && (direct_auth(
                a,
                c,
                password,
                default_key,
                auto,
            ) <==> a == AuthPlan::Agent { auto_discover_keys: auto }),
            AuthMethod::Key { path, .. } => {
                &&& can_connect_directly(c, password, default_key) <==> (path@.len() > 0 || default_key.len() > 0)
                &&& path@.len() > 0 ==> (direct_auth(a, c, password, default_key, auto) <==> opens_with_key(a, path@))
                &&& path@.len() == 0 ==> (direct_auth(a, c, password, default_key, auto) <==> opens_with_key(a, default_key))
            },
            AuthMethod::Password => {
                &&& can_connect_directly(c, password, default_key) <==> password is Some
                &&& password matches Some(t) ==> (direct_auth(a, c, password, default_key, auto) <==> opens_with_password(a, t))
            },
        },
{
}

} // verus!
