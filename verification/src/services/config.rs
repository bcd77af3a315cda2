use vstd::prelude::*;

use crate::domain::connection::{AuthMethod, SavedConnection};
use crate::services::crypto::MasterPasswordConfig;
use crate::languages::messages::Messages;
use crate::text::{
    lemma_lex_transitive, lemma_lex_trichotomy, chars_lex_lt,
    chars_contain, chars_find, chars_have_prefix, chars_of, chars_slice, contains_text, decimal, decimal_string,
    first_index_of, has_prefix, lex_lt, parse_u16, same_text, spec_parse_u16, string_from_chars,
    texts, trim, trim_chars, trim_start, trim_start_chars,
};

verus! {

broadcast use vstd::slice::group_slice_axioms;

/// The config layout this build writes.
pub const CONFIG_VERSION: u32 = 1;

/// The name of the config file inside the config directory.
pub const CONFIG_FILE: &'static str = "config.json";

/// The server-export layout this build writes and reads.
pub const SERVER_EXPORT_VERSION: u32 = 1;

/// The whole persisted configuration.
#[derive(Debug)]
pub struct AppConfig {
    pub version: u32,
    pub theme: ThemePreference,
    pub folders: Vec<Folder>,
    pub next_id: u64,
    pub disable_tailscale_auto_discovery: bool,
    pub connect_instances_on_open: bool,
    pub auto_discover_private_keys: bool,
    pub tailscale_groups: Vec<TailscaleGroupRule>,
    pub hidden_tailscale_devices: Vec<String>,
    pub hidden_tailscale_sections: Vec<String>,
    pub startup_connection_ids: Vec<String>,
    pub master_password: Option<MasterPasswordConfig>,
}

/// The value that a config without `disable_tailscale_auto_discovery` gets.
pub fn default_disable_tailscale_auto_discovery() -> (r: bool)
    ensures
        r,
{
    true
}

/// A named group of Tailscale devices whose host names match `pattern`.
#[derive(Debug)]
pub struct TailscaleGroupRule {
    pub id: String,
    pub name: String,
    pub pattern: String,
}

impl Clone for TailscaleGroupRule {
    fn clone(&self) -> (res: Self)
        ensures
            res == *self,
    {
        TailscaleGroupRule { id: self.id.clone(), name: self.name.clone(), pattern: self.pattern.clone() }
    }
}

/// Which colour theme the user chose.
#[derive(Debug, Clone, Copy, PartialEq, Eq, Structural)]
pub enum ThemePreference {
    System,
    Dark,
    Light,
}

/// A folder of the connection tree: its own connections and its subfolders.
#[derive(Debug)]
pub struct Folder {
    pub id: String,
    pub name: String,
    pub connections: Vec<SavedConnection>,
    pub subfolders: Vec<Folder>,
    pub expanded: bool,
    pub text_tint_rgba: Option<[u8; 4]>,
}

/// What a folder holds, with its subfolders taken by their contents.
pub ghost struct FolderView {
    pub id: Seq<char>,
    pub name: Seq<char>,
    pub connections: Seq<SavedConnection>,
    pub subfolders: Seq<FolderView>,
    pub expanded: bool,
    pub text_tint_rgba: Option<[u8; 4]>,
}

/// The contents of a folder.
pub open spec fn folder_view(f: Folder) -> FolderView
    decreases f,
{
    FolderView {
        id: f.id@,
        name: f.name@,
        connections: f.connections@,
        subfolders: folders_view(f.subfolders@),
        expanded: f.expanded,
        text_tint_rgba: f.text_tint_rgba,
    }
}

/// The contents of a list of folders.
pub open spec fn folders_view(fs: Seq<Folder>) -> Seq<FolderView>
    decreases fs,
{
    if fs.len() == 0 {
        Seq::empty()
    } else {
        folders_view(fs.drop_last()).push(folder_view(fs.last()))
    }
}

/// `folders_view` keeps the length and is taken folder by folder.
pub proof fn lemma_folders_view(fs: Seq<Folder>)
    ensures
        folders_view(fs).len() == fs.len(),
        forall|i: int| 0 <= i < fs.len() ==> #[trigger] folders_view(fs)[i] == folder_view(fs[i]),
    decreases fs.len(),
{
    if fs.len() > 0 {
        lemma_folders_view(fs.drop_last());
    }
}

/// Two lists of folders with the same contents, folder by folder, have the same view.
pub proof fn lemma_folders_view_ext(a: Seq<Folder>, b: Seq<Folder>)
    requires
        a.len() == b.len(),
        forall|i: int| 0 <= i < a.len() ==> folder_view(a[i]) == folder_view(b[i]),
    ensures
        folders_view(a) == folders_view(b),
{
    lemma_folders_view(a);
    lemma_folders_view(b);
    assert(folders_view(a) =~= folders_view(b));
}

/// A copy of a list of connections.
pub fn clone_connections(cs: &Vec<SavedConnection>) -> (res: Vec<SavedConnection>)
    ensures
        res@ == cs@,
{
    let mut res: Vec<SavedConnection> = Vec::new();
    let mut i: usize = 0;
    while i < cs.len()
        invariant
            i <= cs.len(),
            res@ == cs@.take(i as int),
        decreases cs.len() - i,
    {
        res.push(cs[i].clone());
        assert(cs@.take(i as int).push(cs@[i as int]) == cs@.take(i + 1));
        i += 1;
    }
    assert(cs@.take(cs.len() as int) == cs@);
    res
}

/// A copy of a list of folders, with everything below them.
pub fn clone_folders(fs: &Vec<Folder>) -> (res: Vec<Folder>)
    ensures
        folders_view(res@) == folders_view(fs@),
    decreases fs,
{
    let mut res: Vec<Folder> = Vec::new();
    let mut i: usize = 0;
    while i < fs.len()
        invariant
            i <= fs.len(),
            res@.len() == i,
            forall|j: int| 0 <= j < i ==> folder_view(#[trigger] res@[j]) == folder_view(fs@[j]),
        decreases fs.len() - i,
    {
        let f = &fs[i];
        let copy = Folder {
            id: f.id.clone(),
            name: f.name.clone(),
            connections: clone_connections(&f.connections),
            subfolders: clone_folders(&f.subfolders),
            expanded: f.expanded,
            text_tint_rgba: f.text_tint_rgba,
        };
        assert(folder_view(copy) == folder_view(fs@[i as int]));
        res.push(copy);
        i += 1;
    }
    proof {
        lemma_folders_view_ext(res@, fs@);
    }
    res
}

/// Whether a connection holds a sealed password.
pub open spec fn has_secret(c: SavedConnection) -> bool {
    c.encrypted_password is Some
}

/// Whether a connection uses password auth without a sealed password to go with it.
pub open spec fn unsealed_password(c: SavedConnection) -> bool {
    c.auth is Password && c.encrypted_password is None
}

/// Whether any connection anywhere in the tree holds a sealed password.
pub open spec fn any_encrypted(fs: Seq<FolderView>) -> bool
    decreases fs,
{
    if fs.len() == 0 {
        false
    } else {
        ||| any_encrypted(fs.drop_last())
        ||| (exists|j: int| 0 <= j < fs.last().connections.len() && has_secret(#[trigger] fs.last().connections[j]))
        ||| any_encrypted(fs.last().subfolders)
    }
}

/// Whether any connection anywhere in the tree uses password auth without a sealed password.
pub open spec fn any_unsealed_password(fs: Seq<FolderView>) -> bool
    decreases fs,
{
    if fs.len() == 0 {
        false
    } else {
        ||| any_unsealed_password(fs.drop_last())
        ||| (exists|j: int| 0 <= j < fs.last().connections.len() && unsealed_password(#[trigger] fs.last().connections[j]))
        ||| any_unsealed_password(fs.last().subfolders)
    }
}

/// A folder of the list that holds a sealed password, itself or below, makes the list hold one.
proof fn lemma_any_encrypted_at(fs: Seq<FolderView>, i: int)
    requires
        0 <= i < fs.len(),
        (exists|j: int| 0 <= j < fs[i].connections.len() && has_secret(#[trigger] fs[i].connections[j]))
            || any_encrypted(fs[i].subfolders),
    ensures
        any_encrypted(fs),
    decreases fs.len(),
{
    if i < fs.len() - 1 {
        lemma_any_encrypted_at(fs.drop_last(), i);
    }
}

/// A folder of the list with an unsealed password, itself or below, makes the list have one.
proof fn lemma_any_unsealed_at(fs: Seq<FolderView>, i: int)
    requires
        0 <= i < fs.len(),
        (exists|j: int| 0 <= j < fs[i].connections.len() && unsealed_password(#[trigger] fs[i].connections[j]))
            || any_unsealed_password(fs[i].subfolders),
    ensures
        any_unsealed_password(fs),
    decreases fs.len(),
{
    if i < fs.len() - 1 {
        lemma_any_unsealed_at(fs.drop_last(), i);
    }
}

/// Whether `path` leads from the list `fs` to a folder.
pub open spec fn valid_view_path(fs: Seq<FolderView>, path: Seq<int>) -> bool
    decreases path.len(),
{
    &&& path.len() > 0
    &&& 0 <= path[0] < fs.len()
    &&& (path.len() == 1 || valid_view_path(fs[path[0]].subfolders, path.drop_first()))
}

/// The folder that `path` leads to.
pub open spec fn view_at(fs: Seq<FolderView>, path: Seq<int>) -> FolderView
    decreases path.len(),
{
    if path.len() <= 1 {
        fs[path[0]]
    } else {
        view_at(fs[path[0]].subfolders, path.drop_first())
    }
}

proof fn lemma_view_path_in_longer(fs: Seq<FolderView>, p: Seq<int>)
    requires
        fs.len() > 0,
        valid_view_path(fs.drop_last(), p),
    ensures
        valid_view_path(fs, p),
        view_at(fs, p) == view_at(fs.drop_last(), p),
{
    assert(fs[p[0]] == fs.drop_last()[p[0]]);
}

proof fn lemma_view_path_below(fs: Seq<FolderView>, i: int, p: Seq<int>)
    requires
        0 <= i < fs.len(),
        valid_view_path(fs[i].subfolders, p),
    ensures
        valid_view_path(fs, seq![i] + p),
        view_at(fs, seq![i] + p) == view_at(fs[i].subfolders, p),
{
    let q = seq![i] + p;
    assert(q.drop_first() =~= p);
    assert(q[0] == i);
}

/// Some folder of the tree, reached by a path, has a connection that holds a sealed password.
pub open spec fn sealed_somewhere(fs: Seq<FolderView>) -> bool {
    exists|p: Seq<int>, j: int|
        valid_view_path(fs, p) && 0 <= j < view_at(fs, p).connections.len() && #[trigger] has_secret(
            view_at(fs, p).connections[j],
        ) && #[trigger] valid_view_path(fs, p)
}

proof fn lemma_any_encrypted_from_path(fs: Seq<FolderView>, p: Seq<int>, j: int)
    requires
        valid_view_path(fs, p),
        0 <= j < view_at(fs, p).connections.len(),
        has_secret(view_at(fs, p).connections[j]),
    ensures
        any_encrypted(fs),
    decreases p.len(),
{
    if p.len() == 1 {
        lemma_any_encrypted_at(fs, p[0]);
    } else {
        lemma_any_encrypted_from_path(fs[p[0]].subfolders, p.drop_first(), j);
        lemma_any_encrypted_at(fs, p[0]);
    }
}

proof fn lemma_any_encrypted_to_path(fs: Seq<FolderView>)
    requires
        any_encrypted(fs),
    ensures
        sealed_somewhere(fs),
    decreases fs,
{
    let n = fs.len() - 1;
    let last = fs.last();
    assert(fs[n] == last);
    if any_encrypted(fs.drop_last()) {
        lemma_any_encrypted_to_path(fs.drop_last());
        let (p, j) = choose|p: Seq<int>, j: int|
            valid_view_path(fs.drop_last(), p) && 0 <= j < view_at(fs.drop_last(), p).connections.len() && #[trigger] has_secret(
                view_at(fs.drop_last(), p).connections[j],
            ) && #[trigger] valid_view_path(fs.drop_last(), p);
        lemma_view_path_in_longer(fs, p);
    } else if exists|j: int| 0 <= j < last.connections.len() && has_secret(#[trigger] last.connections[j]) {
        let j = choose|j: int| 0 <= j < last.connections.len() && has_secret(#[trigger] last.connections[j]);
        let p = seq![n];
        assert(p.len() == 1 && p[0] == n);
        assert(valid_view_path(fs, p) && view_at(fs, p) == last);
    } else {
        assert(any_encrypted(last.subfolders));
        lemma_any_encrypted_to_path(last.subfolders);
        let (q, j) = choose|q: Seq<int>, j: int|
            valid_view_path(last.subfolders, q) && 0 <= j < view_at(last.subfolders, q).connections.len()
                && #[trigger] has_secret(view_at(last.subfolders, q).connections[j]) && #[trigger] valid_view_path(
                last.subfolders,
                q,
            );
        lemma_view_path_below(fs, n, q);
    }
}

/// A sealed password is held anywhere in the tree exactly when some folder, reached by a path of
/// subfolders, has one among its own connections.
pub proof fn lemma_any_encrypted_iff_somewhere(fs: Seq<FolderView>)
    ensures
        any_encrypted(fs) <==> sealed_somewhere(fs),
{
    if any_encrypted(fs) {
        lemma_any_encrypted_to_path(fs);
    }
    if sealed_somewhere(fs) {
        let (p, j) = choose|p: Seq<int>, j: int|
            valid_view_path(fs, p) && 0 <= j < view_at(fs, p).connections.len() && #[trigger] has_secret(
                view_at(fs, p).connections[j],
            ) && #[trigger] valid_view_path(fs, p);
        lemma_any_encrypted_from_path(fs, p, j);
    }
}

/// Some folder of the tree, reached by a path, has a connection with password auth and no
/// sealed password.
pub open spec fn unsealed_somewhere(fs: Seq<FolderView>) -> bool {
    exists|p: Seq<int>, j: int|
        valid_view_path(fs, p) && 0 <= j < view_at(fs, p).connections.len() && #[trigger] unsealed_password(
            view_at(fs, p).connections[j],
        ) && #[trigger] valid_view_path(fs, p)
}

proof fn lemma_any_unsealed_password_from_path(fs: Seq<FolderView>, p: Seq<int>, j: int)
    requires
        valid_view_path(fs, p),
        0 <= j < view_at(fs, p).connections.len(),
        unsealed_password(view_at(fs, p).connections[j]),
    ensures
        any_unsealed_password(fs),
    decreases p.len(),
{
    if p.len() == 1 {
        lemma_any_unsealed_at(fs, p[0]);
    } else {
        lemma_any_unsealed_password_from_path(fs[p[0]].subfolders, p.drop_first(), j);
        lemma_any_unsealed_at(fs, p[0]);
    }
}

proof fn lemma_any_unsealed_password_to_path(fs: Seq<FolderView>)
    requires
        any_unsealed_password(fs),
    ensures
        unsealed_somewhere(fs),
    decreases fs,
{
    let n = fs.len() - 1;
    let last = fs.last();
    assert(fs[n] == last);
    if any_unsealed_password(fs.drop_last()) {
        lemma_any_unsealed_password_to_path(fs.drop_last());
        let (p, j) = choose|p: Seq<int>, j: int|
            valid_view_path(fs.drop_last(), p) && 0 <= j < view_at(fs.drop_last(), p).connections.len() && #[trigger] unsealed_password(
                view_at(fs.drop_last(), p).connections[j],
            ) && #[trigger] valid_view_path(fs.drop_last(), p);
        lemma_view_path_in_longer(fs, p);
    } else if exists|j: int| 0 <= j < last.connections.len() && unsealed_password(#[trigger] last.connections[j]) {
        let j = choose|j: int| 0 <= j < last.connections.len() && unsealed_password(#[trigger] last.connections[j]);
        let p = seq![n];
        assert(p.len() == 1 && p[0] == n);
        assert(valid_view_path(fs, p) && view_at(fs, p) == last);
    } else {
        assert(any_unsealed_password(last.subfolders));
        lemma_any_unsealed_password_to_path(last.subfolders);
        let (q, j) = choose|q: Seq<int>, j: int|
            valid_view_path(last.subfolders, q) && 0 <= j < view_at(last.subfolders, q).connections.len()
                && #[trigger] unsealed_password(view_at(last.subfolders, q).connections[j]) && #[trigger] valid_view_path(
                last.subfolders,
                q,
            );
        lemma_view_path_below(fs, n, q);
    }
}

/// A password-auth connection without a sealed password is found anywhere in the tree exactly
/// when some folder, reached by a path of subfolders, has one among its own connections.
pub proof fn lemma_any_unsealed_password_iff_somewhere(fs: Seq<FolderView>)
    ensures
        any_unsealed_password(fs) <==> unsealed_somewhere(fs),
{
    if any_unsealed_password(fs) {
        lemma_any_unsealed_password_to_path(fs);
    }
    if unsealed_somewhere(fs) {
        let (p, j) = choose|p: Seq<int>, j: int|
            valid_view_path(fs, p) && 0 <= j < view_at(fs, p).connections.len() && #[trigger] unsealed_password(
                view_at(fs, p).connections[j],
            ) && #[trigger] valid_view_path(fs, p);
        lemma_any_unsealed_password_from_path(fs, p, j);
    }
}

proof fn lemma_view_take_push(fs: Seq<Folder>, i: int)
    requires
        0 <= i < fs.len(),
    ensures
        folders_view(fs.take(i + 1)) == folders_view(fs.take(i)).push(folder_view(fs[i])),
{
    assert(fs.take(i + 1).drop_last() == fs.take(i));
}

/// Whether one of `cs` holds a sealed password.
fn connections_have_secret(cs: &Vec<SavedConnection>) -> (r: bool)
    ensures
        r == exists|j: int| 0 <= j < cs@.len() && has_secret(#[trigger] cs@[j]),
{
    let mut j: usize = 0;
    while j < cs.len()
        invariant
            j <= cs.len(),
            forall|t: int| 0 <= t < j ==> !has_secret(#[trigger] cs@[t]),
        decreases cs.len() - j,
    {
        if cs[j].encrypted_password.is_some() {
            assert(has_secret(cs@[j as int]));
            return true;
        }
        j += 1;
    }
    false
}

/// Whether one of `cs` uses password auth without a sealed password.
fn connections_have_unsealed(cs: &Vec<SavedConnection>) -> (r: bool)
    ensures
        r == exists|j: int| 0 <= j < cs@.len() && unsealed_password(#[trigger] cs@[j]),
{
    let mut j: usize = 0;
    while j < cs.len()
        invariant
            j <= cs.len(),
            forall|t: int| 0 <= t < j ==> !unsealed_password(#[trigger] cs@[t]),
        decreases cs.len() - j,
    {
        let c = &cs[j];
        if matches!(c.auth, AuthMethod::Password) && c.encrypted_password.is_none() {
            assert(unsealed_password(cs@[j as int]));
            return true;
        }
        j += 1;
    }
    false
}

/// Whether any connection anywhere in the tree holds a sealed password.
pub fn has_encrypted_passwords(folders: &[Folder]) -> (r: bool)
    ensures
        r == any_encrypted(folders_view(folders@)),
    decreases folders@,
{
    let mut i: usize = 0;
    assert(folders@.take(0) == Seq::<Folder>::empty());
    while i < folders.len()
        invariant
            i <= folders.len(),
            !any_encrypted(folders_view(folders@.take(i as int))),
        decreases folders.len() - i,
    {
        proof {
            lemma_view_take_push(folders@, i as int);
        }
        let f = &folders[i];
        if connections_have_secret(&f.connections) {
            proof {
                lemma_folders_view(folders@);
                assert(folders_view(folders@)[i as int] == folder_view(folders@[i as int]));
                let j = choose|j: int| 0 <= j < f.connections@.len() && has_secret(#[trigger] f.connections@[j]);
                assert(has_secret(folders_view(folders@)[i as int].connections[j]));
                lemma_any_encrypted_at(folders_view(folders@), i as int);
            }
            return true;
        }
        if has_encrypted_passwords(f.subfolders.as_slice()) {
            proof {
                lemma_folders_view(folders@);
                assert(folders_view(folders@)[i as int] == folder_view(folders@[i as int]));
                assert(folders@[i as int] == *f);
                assert(any_encrypted(folders_view(folders@)[i as int].subfolders));
                lemma_any_encrypted_at(folders_view(folders@), i as int);
            }
            return true;
        }
        assert(folder_view(*f).connections == f.connections@);
        assert(folders@[i as int] == *f);
        proof {
            let pre = folders_view(folders@.take(i as int));
            let y = folder_view(folders@[i as int]);
            assert(pre.push(y).drop_last() == pre);
            assert(pre.push(y).last() == y);
            assert(!any_encrypted(pre.push(y)));
        }
        i += 1;
    }
    assert(folders@.take(i as int) == folders@);
    false
}

/// Whether any connection anywhere in the tree uses password auth without a sealed password.
fn has_unsealed_passwords(folders: &[Folder]) -> (r: bool)
    ensures
        r == any_unsealed_password(folders_view(folders@)),
    decreases folders@,
{
    let mut i: usize = 0;
    assert(folders@.take(0) == Seq::<Folder>::empty());
    while i < folders.len()
        invariant
            i <= folders.len(),
            !any_unsealed_password(folders_view(folders@.take(i as int))),
        decreases folders.len() - i,
    {
        proof {
            lemma_view_take_push(folders@, i as int);
        }
        let f = &folders[i];
        if connections_have_unsealed(&f.connections) {
            proof {
                lemma_folders_view(folders@);
                assert(folders_view(folders@)[i as int] == folder_view(folders@[i as int]));
                let j = choose|j: int| 0 <= j < f.connections@.len() && unsealed_password(#[trigger] f.connections@[j]);
                assert(unsealed_password(folders_view(folders@)[i as int].connections[j]));
                lemma_any_unsealed_at(folders_view(folders@), i as int);
            }
            return true;
        }
        if has_unsealed_passwords(f.subfolders.as_slice()) {
            proof {
                lemma_folders_view(folders@);
                assert(folders_view(folders@)[i as int] == folder_view(folders@[i as int]));
                assert(folders@[i as int] == *f);
                assert(any_unsealed_password(folders_view(folders@)[i as int].subfolders));
                lemma_any_unsealed_at(folders_view(folders@), i as int);
            }
            return true;
        }
        assert(folder_view(*f).connections == f.connections@);
        assert(folders@[i as int] == *f);
        proof {
            let pre = folders_view(folders@.take(i as int));
            let y = folder_view(folders@[i as int]);
            assert(pre.push(y).drop_last() == pre);
            assert(pre.push(y).last() == y);
            assert(!any_unsealed_password(pre.push(y)));
        }
        i += 1;
    }
    assert(folders@.take(i as int) == folders@);
    false
}

/// Why a configuration or a server export was refused.
#[derive(Debug)]
pub enum ConfigError {
    /// The export declares a layout version other than the one this build reads.
    UnsupportedExportVersion { found: u32 },
    /// The export holds sealed passwords but not the master-password data that opens them.
    EncryptedWithoutMasterPassword,
    /// A password-auth connection has no sealed password with it.
    PasswordWithoutStoredSecret,
    /// The SuperPuTTY file is not well-formed XML; the parser's message.
    InvalidXml(String),
    /// The SuperPuTTY file holds no usable session.
    NoSessionData,
    /// The export file is not a valid JSON export; the parser's message.
    InvalidJson(String),
}

/// The text shown to the user for a config error.
pub open spec fn config_error_text(e: ConfigError) -> Seq<char> {
    match e {
        ConfigError::UnsupportedExportVersion { found } => "Unsupported export version "@ + decimal(found as nat)
            + " (expected "@ + decimal(SERVER_EXPORT_VERSION as nat) + ")."@,
        ConfigError::EncryptedWithoutMasterPassword => "Import includes encrypted saved passwords but no master-password metadata."@,
        ConfigError::PasswordWithoutStoredSecret => "Password-auth connections must store an encrypted password protected by a master password."@,
        ConfigError::InvalidXml(e) => e@,
        ConfigError::NoSessionData => "No SessionData entries were found in SuperPuTTY XML."@,
        ConfigError::InvalidJson(e) => e@,
    }
}

impl ConfigError {
    /// The text shown to the user for this error.
    pub fn message(&self) -> (m: String)
        ensures
            m@ == config_error_text(*self),
    {
        match self {
            ConfigError::UnsupportedExportVersion { found } => {
                let mut m = String::from_str("Unsupported export version ");
                m.append(decimal_string(*found as u64).as_str());
                m.append(" (expected ");
                m.append(decimal_string(SERVER_EXPORT_VERSION as u64).as_str());
                m.append(").");
                m
            },
            ConfigError::EncryptedWithoutMasterPassword => String::from_str(
                "Import includes encrypted saved passwords but no master-password metadata.",
            ),
            ConfigError::PasswordWithoutStoredSecret => String::from_str(
                "Password-auth connections must store an encrypted password protected by a master password.",
            ),
            ConfigError::InvalidXml(e) => e.clone(),
            ConfigError::NoSessionData => String::from_str("No SessionData entries were found in SuperPuTTY XML."),
            ConfigError::InvalidJson(e) => e.clone(),
        }
    }
}

/// Refuses a tree in which a password-auth connection has no sealed password.
pub fn validate_password_auth_storage(folders: &[Folder]) -> (r: Result<(), ConfigError>)
    ensures
        r == (if any_unsealed_password(folders_view(folders@)) {
            Err(ConfigError::PasswordWithoutStoredSecret)
        } else {
            Ok(())
        }),
{
    if has_unsealed_passwords(folders) {
        return Err(ConfigError::PasswordWithoutStoredSecret);
    }
    Ok(())
}

/// The servers of the connection tree, as exported to and imported from a file.
#[derive(Debug)]
pub struct ServerExport {
    pub version: u32,
    pub exported_at_utc: String,
    pub folders: Vec<Folder>,
    pub master_password: Option<MasterPasswordConfig>,
}

/// What `validate_server_export` answers for an export with these parts.
pub open spec fn export_verdict(
    version: u32,
    folders: Seq<FolderView>,
    master_password: Option<MasterPasswordConfig>,
) -> Result<(), ConfigError> {
    if version != SERVER_EXPORT_VERSION {
        Err(ConfigError::UnsupportedExportVersion { found: version })
    } else if any_encrypted(folders) && master_password is None {
        Err(ConfigError::EncryptedWithoutMasterPassword)
    } else if any_unsealed_password(folders) {
        Err(ConfigError::PasswordWithoutStoredSecret)
    } else {
        Ok(())
    }
}

/// Checks an export: its version, that sealed passwords come with master-password data,
/// and that every password-auth connection has a sealed password.
pub fn validate_server_export(export: &ServerExport) -> (r: Result<(), ConfigError>)
    ensures
        r == export_verdict(export.version, folders_view(export.folders@), export.master_password),
{
    if export.version != SERVER_EXPORT_VERSION {
        return Err(ConfigError::UnsupportedExportVersion { found: export.version });
    }
    if has_encrypted_passwords(export.folders.as_slice()) && export.master_password.is_none() {
        return Err(ConfigError::EncryptedWithoutMasterPassword);
    }
    validate_password_auth_storage(export.folders.as_slice())
}

/// Brings an older config to the current layout.
pub fn migrate_config(config: AppConfig) -> (r: AppConfig)
    ensures
        r == (AppConfig { version: CONFIG_VERSION, ..config }),
{
    let mut config = config;
    config.version = CONFIG_VERSION;
    config
}

/// A config as read from disk: brought up to the current version where it is older, kept as it
/// is otherwise.
pub fn upgrade_loaded_config(config: AppConfig) -> (r: AppConfig)
    ensures
        config.version < CONFIG_VERSION ==> r == (AppConfig { version: CONFIG_VERSION, ..config }),
        config.version >= CONFIG_VERSION ==> r == config,
{
    if config.version < CONFIG_VERSION {
        migrate_config(config)
    } else {
        config
    }
}

/// A fresh random (version 4) UUID in its hyphenated lower-case form, from `uuid::Uuid::new_v4`.
/// That form is 36 characters long; nothing else is promised of the value.
#[verifier::external_body]
pub(crate) fn new_uuid() -> (id: String)
    ensures
        id@.len() == 36,
{
    uuid::Uuid::new_v4().to_string()
}

/// The current UTC time in RFC 3339 form, from `chrono::Utc::now().to_rfc3339()`. It depends on
/// the clock, so nothing is promised of it.
#[verifier::external_body]
pub(crate) fn now_utc_rfc3339() -> String {
    chrono::Utc::now().to_rfc3339()
}

/// The starting configuration with its folder named `folder_name`: one expanded, empty,
/// untinted folder with a fresh id, theme from the system, discovery off, nothing hidden or
/// chosen for start, no master password.
pub open spec fn starting_config(cfg: AppConfig, folder_name: Seq<char>) -> bool {
    &&& cfg.version == CONFIG_VERSION
    &&& cfg.theme == ThemePreference::System
    &&& cfg.folders@.len() == 1
    &&& cfg.folders@[0].id@.len() == 36
    &&& cfg.folders@[0].name@ == folder_name
    &&& cfg.folders@[0].connections@.len() == 0
    &&& cfg.folders@[0].subfolders@.len() == 0
    &&& cfg.folders@[0].expanded
    &&& cfg.folders@[0].text_tint_rgba is None
    &&& cfg.next_id == 1
    &&& cfg.disable_tailscale_auto_discovery
    &&& !cfg.connect_instances_on_open
    &&& !cfg.auto_discover_private_keys
    &&& cfg.tailscale_groups@.len() == 0
    &&& cfg.hidden_tailscale_devices@.len() == 0
    &&& cfg.hidden_tailscale_sections@.len() == 0
    &&& cfg.startup_connection_ids@.len() == 0
    &&& cfg.master_password is None
}

impl AppConfig {
    /// The starting configuration: one expanded, empty folder named `default_folder_name`,
    /// Tailscale discovery off, nothing hidden, no master password.
    pub fn with_default_folder(default_folder_name: String) -> (cfg: AppConfig)
        ensures
            starting_config(cfg, default_folder_name@),
    {
        let mut folders: Vec<Folder> = Vec::new();
        folders.push(Folder {
            id: new_uuid(),
            name: default_folder_name,
            connections: Vec::new(),
            subfolders: Vec::new(),
            expanded: true,
            text_tint_rgba: None,
        });
        AppConfig {
            version: CONFIG_VERSION,
            theme: ThemePreference::System,
            folders,
            next_id: 1,
            disable_tailscale_auto_discovery: true,
            connect_instances_on_open: false,
            auto_discover_private_keys: false,
            tailscale_groups: Vec::new(),
            hidden_tailscale_devices: Vec::new(),
            hidden_tailscale_sections: Vec::new(),
            startup_connection_ids: Vec::new(),
            master_password: None,
        }
    }

    /// A fresh random id; also counts it in `next_id`.
    pub fn generate_id(&mut self) -> (id: String)
        requires
            old(self).next_id < u64::MAX,
        ensures
            id@.len() == 36,
            *final(self) == (AppConfig { next_id: (old(self).next_id + 1) as u64, ..*old(self) }),
    {
        let id = new_uuid();
        self.next_id = self.next_id + 1;
        id
    }
}

impl Default for AppConfig {
    /// The starting configuration of `with_default_folder`, the folder named by the message
    /// key `config.default_folder_name` (no message texts are loaded here).
    fn default() -> (cfg: AppConfig)
        ensures
            starting_config(cfg, "config.default_folder_name"@),
    {
        let name = Messages::new().get("config.default_folder_name");
        proof {
            reveal_strlit("config.default_folder_name");
        }
        AppConfig::with_default_folder(name)
    }
}

/// `dir` joined with `name` by `/`, as `Path::join` does for a relative name: no separator is
/// added after an empty directory or one that already ends in a separator.
pub open spec fn join_path(dir: Seq<char>, name: Seq<char>) -> Seq<char> {
    if dir.len() == 0 || dir.last() == '/' || dir.last() == '\\' {
        dir + name
    } else {
        dir + seq!['/'] + name
    }
}

/// The config file's path inside the config directory `config_dir`.
pub fn config_path(config_dir: &str) -> (p: String)
    ensures
        p@ == join_path(config_dir@, CONFIG_FILE@),
{
    join_path_str(config_dir, CONFIG_FILE)
}

/// `name` inside the directory `dir`.
pub fn join_path_str(dir: &str, name: &str) -> (p: String)
    ensures
        p@ == join_path(dir@, name@),
{
    let d = chars_of(dir);
    let mut out = string_from_chars(&d);
    if d.len() > 0 && d[d.len() - 1] != '/' && d[d.len() - 1] != '\\' {
        out.append("/");
        proof {
            reveal_strlit("/");
        }
    }
    out.append(name);
    out
}

/// The export that `export_servers` builds: the config's folders, and its master-password data
/// only when some connection holds a sealed password.
pub open spec fn export_master_password(config: AppConfig) -> Option<MasterPasswordConfig> {
    if any_encrypted(folders_view(config.folders@)) {
        config.master_password
    } else {
        None
    }
}

/// Builds the export of `config`'s servers, stamped with the current time, and checks it as an
/// import would. Writing it out is left to the caller.
pub fn export_servers(config: &AppConfig) -> (r: Result<ServerExport, ConfigError>)
    ensures
        match export_verdict(SERVER_EXPORT_VERSION, folders_view(config.folders@), export_master_password(*config)) {
            Ok(_) => r matches Ok(e) && e.version == SERVER_EXPORT_VERSION
                && folders_view(e.folders@) == folders_view(config.folders@)
                && e.master_password == export_master_password(*config),
            Err(err) => r == Err::<ServerExport, ConfigError>(err),
        },
{
    let master_password = if has_encrypted_passwords(config.folders.as_slice()) {
        match &config.master_password {
            Some(m) => Some(m.clone()),
            None => None,
        }
    } else {
        None
    };
    let export = ServerExport {
        version: SERVER_EXPORT_VERSION,
        exported_at_utc: now_utc_rfc3339(),
        folders: clone_folders(&config.folders),
        master_password,
    };
    match validate_server_export(&export) {
        Ok(()) => Ok(export),
        Err(e) => Err(e),
    }
}

/// Whether an import file looks like SuperPuTTY XML rather than a JSON export.
pub open spec fn spec_looks_like_superputty_xml(contents: Seq<char>) -> bool {
    let t = trim_start(contents);
    has_prefix(t, "<?xml"@) || has_prefix(t, "<ArrayOfSessionData"@) || contains_text(t, "<ArrayOfSessionData"@)
}

/// Whether an import file looks like SuperPuTTY XML rather than a JSON export.
pub fn looks_like_superputty_xml(contents: &str) -> (r: bool)
    ensures
        r == spec_looks_like_superputty_xml(contents@),
{
    let t = trim_start_chars(&chars_of(contents));
    let xml_decl = chars_of("<?xml");
    let root = chars_of("<ArrayOfSessionData");
    chars_have_prefix(&t, &xml_decl) || chars_have_prefix(&t, &root) || chars_contain(&t, &root)
}

/// One attribute of an XML element: its namespace URI (if any), local name and value.
#[derive(Debug)]
pub struct XmlAttribute {
    pub namespace: Option<String>,
    pub name: String,
    pub value: String,
}

/// One node of an XML document, in document order: an element's local name and attributes;
/// other nodes have an empty name and no attributes.
#[derive(Debug)]
pub struct XmlNode {
    pub local_name: String,
    pub attributes: Vec<XmlAttribute>,
}

/// A node's contents: local name and (namespace, name, value) of each attribute.
pub open spec fn xml_node_view(n: XmlNode) -> (Seq<char>, Seq<(Option<Seq<char>>, Seq<char>, Seq<char>)>) {
    (n.local_name@, attrs_view(n.attributes@))
}

/// What `roxmltree::Document::parse` makes of `text`: its nodes in document order
/// (`descendants()`), or the parser's error message.
pub uninterp spec fn xml_parse_outcome(text: Seq<char>) -> Result<
    Seq<(Seq<char>, Seq<(Option<Seq<char>>, Seq<char>, Seq<char>)>)>,
    Seq<char>,
>;

/// Parses `contents` with `roxmltree::Document::parse` and lists every node of the document
/// in document order, each by its tag's local name and its attributes.
#[verifier::external_body]
fn parse_xml_nodes(contents: &str) -> (r: Result<Vec<XmlNode>, String>)
    ensures
        match r {
            Ok(v) => xml_parse_outcome(contents@) == Ok::<_, Seq<char>>(v@.map_values(|n: XmlNode| xml_node_view(n))),
            Err(e) => xml_parse_outcome(contents@) == Err::<Seq<(Seq<char>, Seq<(Option<Seq<char>>, Seq<char>, Seq<char>)>)>, _>(e@),
        },
{
    let doc = roxmltree::Document::parse(contents).map_err(|e| e.to_string())?;
    let mut out = Vec::new();
    for n in doc.descendants() {
        let mut attributes = Vec::new();
        for a in n.attributes() {
            let namespace = a.namespace().map(|u| u.to_string());
            attributes.push(XmlAttribute { namespace, name: a.name().to_string(), value: a.value().to_string() });
        }
        out.push(XmlNode { local_name: n.tag_name().name().to_string(), attributes });
    }
    Ok(out)
}

/// The value of the attribute without namespace named `name`, as `roxmltree`'s
/// `Node::attribute(&str)` finds it (the first such).
pub open spec fn xml_attr(attrs: Seq<(Option<Seq<char>>, Seq<char>, Seq<char>)>, name: Seq<char>) -> Option<Seq<char>>
    decreases attrs.len(),
{
    if attrs.len() == 0 {
        None
    } else if attrs[0].0 is None && attrs[0].1 == name {
        Some(attrs[0].2)
    } else {
        xml_attr(attrs.drop_first(), name)
    }
}

/// One session read from a SuperPuTTY file: folder name, display name, host, port, user name.
pub struct SessionEntry {
    pub folder: String,
    pub name: String,
    pub host: String,
    pub port: u16,
    pub username: String,
}

/// A session's contents.
pub open spec fn entry_view(e: SessionEntry) -> (Seq<char>, Seq<char>, Seq<char>, u16, Seq<char>) {
    (e.folder@, e.name@, e.host@, e.port, e.username@)
}

/// The folder a session goes to: the part of its id before the first `/`, when that part is
/// not empty; otherwise `Imported`.
pub open spec fn session_folder(session_id: Seq<char>) -> Seq<char> {
    match first_index_of(session_id, '/') {
        Some(k) => if k > 0 { session_id.take(k) } else { "Imported"@ },
        None => "Imported"@,
    }
}

/// Where a SuperPuTTY session goes, by its id: an id without `/`, or one that starts with `/`,
/// goes to the folder `Imported`; an id with `/` further on goes to the folder named by what
/// comes before its first `/`.
pub proof fn lemma_session_folder_by_id(id: Seq<char>)
    ensures
        (forall|i: int| 0 <= i < id.len() ==> id[i] != '/') ==> session_folder(id) == "Imported"@,
        (id.len() > 0 && id[0] == '/') ==> session_folder(id) == "Imported"@,
        forall|k: int|
            0 < k < id.len() && #[trigger] id[k] == '/' && (forall|j: int| 0 <= j < k ==> id[j] != '/')
                ==> session_folder(id) == id.take(k),
{
    assert forall|k: int|
        0 < k < id.len() && #[trigger] id[k] == '/' && (forall|j: int| 0 <= j < k ==> id[j] != '/')
            implies session_folder(id) == id.take(k) by {
        let i = first_index_of(id, '/')->0;
        assert(first_index_of(id, '/') is Some);
        if i < k {
            assert(id[i] != '/');
        }
        if i > k {
            assert(id[k] != '/');
        }
    }
    if id.len() > 0 && id[0] == '/' {
        assert(first_index_of(id, '/') is Some);
        assert(first_index_of(id, '/')->0 == 0);
    }
}

/// The session that a `SessionData` node with these attributes stands for, or `None` when its
/// host is blank.
pub open spec fn session_of(attrs: Seq<(Option<Seq<char>>, Seq<char>, Seq<char>)>) -> Option<(Seq<char>, Seq<char>, Seq<char>, u16, Seq<char>)> {
    let host = trim(
        match xml_attr(attrs, "Host"@) {
            Some(h) => h,
            None => Seq::empty(),
        },
    );
    let name = trim(
        match xml_attr(attrs, "SessionName"@) {
            Some(n) => n,
            None => host,
        },
    );
    let id = trim(
        match xml_attr(attrs, "SessionId"@) {
            Some(i) => i,
            None => name,
        },
    );
    let user = trim(
        match xml_attr(attrs, "Username"@) {
            Some(u) => u,
            None => Seq::empty(),
        },
    );
    let port = match xml_attr(attrs, "Port"@) {
        Some(p) => match spec_parse_u16(p) {
            Some(v) => v,
            None => 22u16,
        },
        None => 22u16,
    };
    if host.len() == 0 {
        None
    } else {
        Some((session_folder(id), name, host, port, user))
    }
}

/// What a `SessionData` element gives, attribute by attribute: a session only when its `Host`
/// is there and not blank (trimmed); its name is the trimmed `SessionName`, the host when that
/// is missing; its port the `Port` read as a number, 22 when it is missing or not a port
/// number; its user the trimmed `Username` (empty when missing); and its folder is found from
/// the trimmed `SessionId`, the name when that is missing.
pub proof fn lemma_session_fields(attrs: Seq<(Option<Seq<char>>, Seq<char>, Seq<char>)>)
    ensures
        match xml_attr(attrs, "Host"@) {
            None => session_of(attrs) is None,
            Some(h) => if trim(h).len() == 0 {
                session_of(attrs) is None
            } else {
                let host = trim(h);
                let name = match xml_attr(attrs, "SessionName"@) {
                    Some(n) => trim(n),
                    None => trim(host),
                };
                let e = session_of(attrs)->0;
                &&& session_of(attrs) is Some
                &&& e.2 == host
                &&& e.1 == name
                &&& e.3 == match xml_attr(attrs, "Port"@) {
                    None => 22u16,
                    Some(p) => match spec_parse_u16(p) {
                        None => 22u16,
                        Some(v) => v,
                    },
                }
                &&& e.4 == match xml_attr(attrs, "Username"@) {
                    None => trim(Seq::<char>::empty()),
                    Some(u) => trim(u),
                }
                &&& e.0 == match xml_attr(attrs, "SessionId"@) {
                    None => session_folder(trim(name)),
                    Some(i) => session_folder(trim(i)),
                }
            },
        },
{
}

/// The sessions of a SuperPuTTY document: one for each `SessionData` element with a host, in
/// document order.
pub open spec fn session_entries(nodes: Seq<(Seq<char>, Seq<(Option<Seq<char>>, Seq<char>, Seq<char>)>)>) -> Seq<(Seq<char>, Seq<char>, Seq<char>, u16, Seq<char>)>
    decreases nodes.len(),
{
    if nodes.len() == 0 {
        Seq::empty()
    } else {
        let rest = session_entries(nodes.drop_last());
        let n = nodes.last();
        if n.0 == "SessionData"@ {
            match session_of(n.1) {
                Some(e) => rest.push(e),
                None => rest,
            }
        } else {
            rest
        }
    }
}

/// The attributes of a node, by their contents.
pub open spec fn attrs_view(attrs: Seq<XmlAttribute>) -> Seq<(Option<Seq<char>>, Seq<char>, Seq<char>)> {
    attrs.map_values(
        |a: XmlAttribute|
            (
                match a.namespace {
                    Some(u) => Some(u@),
                    None => None,
                },
                a.name@,
                a.value@,
            ),
    )
}

/// The value of the attribute without namespace named `name`.
fn xml_attribute(attrs: &Vec<XmlAttribute>, name: &str) -> (r: Option<String>)
    ensures
        match r {
            Some(v) => xml_attr(attrs_view(attrs@), name@) == Some(v@),
            None => xml_attr(attrs_view(attrs@), name@) is None,
        },
{
    let ghost av = attrs_view(attrs@);
    let mut i: usize = 0;
    assert(av.skip(0) == av);
    while i < attrs.len()
        invariant
            i <= attrs.len(),
            av == attrs_view(attrs@),
            xml_attr(av, name@) == xml_attr(av.skip(i as int), name@),
        decreases attrs.len() - i,
    {
        assert(av.skip(i as int).drop_first() == av.skip(i + 1));
        let a = &attrs[i];
        if a.namespace.is_none() && same_text(a.name.as_str(), name) {
            return Some(a.value.clone());
        }
        i += 1;
    }
    None
}

/// `text` trimmed, or `fallback` trimmed when there is no text.
fn trimmed_or(text: Option<String>, fallback: &Vec<char>) -> (r: Vec<char>)
    ensures
        r@ == trim(
            match text {
                Some(t) => t@,
                None => fallback@,
            },
        ),
{
    match text {
        Some(t) => trim_chars(&chars_of(t.as_str())),
        None => trim_chars(fallback),
    }
}

/// The session that a `SessionData` node with attributes `attrs` stands for, if its host is
/// not blank.
fn session_from_attributes(attrs: &Vec<XmlAttribute>) -> (r: Option<SessionEntry>)
    ensures
        match r {
            Some(e) => session_of(attrs_view(attrs@)) == Some(entry_view(e)),
            None => session_of(attrs_view(attrs@)) is None,
        },
{
    let empty: Vec<char> = Vec::new();
    let host = trimmed_or(xml_attribute(attrs, "Host"), &empty);
    let name = trimmed_or(xml_attribute(attrs, "SessionName"), &host);
    proof {
        crate::text::lemma_trim_idempotent(host@);
    }
    let id = trimmed_or(xml_attribute(attrs, "SessionId"), &name);
    proof {
        crate::text::lemma_trim_idempotent(name@);
    }
    let user = trimmed_or(xml_attribute(attrs, "Username"), &empty);
    let port: u16 = match xml_attribute(attrs, "Port") {
        Some(p) => match parse_u16(p.as_str()) {
            Some(v) => v,
            None => 22,
        },
        None => 22,
    };
    if host.len() == 0 {
        return None;
    }
    let folder = match chars_find(&id, '/') {
        Some(k) => {
            if k > 0 {
                chars_slice(&id, 0, k)
            } else {
                chars_of("Imported")
            }
        },
        None => chars_of("Imported"),
    };
    Some(
        SessionEntry {
            folder: string_from_chars(&folder),
            name: string_from_chars(&name),
            host: string_from_chars(&host),
            port,
            username: string_from_chars(&user),
        },
    )
}

/// The sessions read from `nodes[..i]`.
fn session_entries_of(nodes: &Vec<XmlNode>) -> (r: Vec<SessionEntry>)
    ensures
        r@.map_values(|e: SessionEntry| entry_view(e)) == session_entries(
            nodes@.map_values(|n: XmlNode| xml_node_view(n)),
        ),
{
    let ghost nv = nodes@.map_values(|n: XmlNode| xml_node_view(n));
    let mut r: Vec<SessionEntry> = Vec::new();
    let mut i: usize = 0;
    assert(nv.take(0) =~= Seq::<(Seq<char>, Seq<(Option<Seq<char>>, Seq<char>, Seq<char>)>)>::empty());
    assert(r@.map_values(|e: SessionEntry| entry_view(e)) =~= Seq::<(Seq<char>, Seq<char>, Seq<char>, u16, Seq<char>)>::empty());
    while i < nodes.len()
        invariant
            i <= nodes.len(),
            nv == nodes@.map_values(|n: XmlNode| xml_node_view(n)),
            r@.map_values(|e: SessionEntry| entry_view(e)) == session_entries(nv.take(i as int)),
        decreases nodes.len() - i,
    {
        assert(nv.take(i + 1).drop_last() == nv.take(i as int));
        assert(nv.take(i + 1).last() == xml_node_view(nodes@[i as int]));
        let n = &nodes[i];
        if same_text(n.local_name.as_str(), "SessionData") {
            match session_from_attributes(&n.attributes) {
                Some(e) => {
                    let ghost before = r@;
                    r.push(e);
                    assert(r@.map_values(|e: SessionEntry| entry_view(e)) =~= before.map_values(
                        |e: SessionEntry| entry_view(e),
                    ).push(entry_view(r@[before.len() as int])));
                },
                None => {},
            }
        }
        i += 1;
    }
    assert(nv.take(nodes.len() as int) == nv);
    r
}

/// Whether every name comes strictly before every later one.
pub open spec fn strictly_sorted(names: Seq<Seq<char>>) -> bool {
    forall|i: int, j: int| 0 <= i < j < names.len() ==> lex_lt(#[trigger] names[i], #[trigger] names[j])
}

/// Adds `x` to the sorted list `names` unless it is there already.
pub fn insert_sorted(names: &mut Vec<String>, x: String)
    requires
        strictly_sorted(texts(old(names)@)),
    ensures
        strictly_sorted(texts(final(names)@)),
        forall|t: Seq<char>| texts(final(names)@).contains(t) <==> (texts(old(names)@).contains(t) || t == x@),
{
    let ghost old_t = texts(names@);
    let xv = chars_of(x.as_str());
    let mut p: usize = 0;
    while p < names.len() && chars_lex_lt(&chars_of(names[p].as_str()), &xv)
        invariant
            p <= names.len(),
            names@ == old(names)@,
            old_t == texts(names@),
            xv@ == x@,
            strictly_sorted(old_t),
            forall|k: int| 0 <= k < p ==> lex_lt(#[trigger] old_t[k], x@),
        decreases names.len() - p,
    {
        p += 1;
    }
    if p < names.len() && same_text(names[p].as_str(), x.as_str()) {
        assert(old_t[p as int] == x@);
        assert(texts(names@) == old_t);
        return;
    }
    proof {
        if p < names.len() {
            lemma_lex_trichotomy(old_t[p as int], x@);
            assert(lex_lt(x@, old_t[p as int]));
            assert forall|k: int| p < k < old_t.len() implies lex_lt(x@, #[trigger] old_t[k]) by {
                lemma_lex_transitive(x@, old_t[p as int], old_t[k]);
            }
        }
    }
    names.insert(p, x);
    proof {
        let nt = texts(names@);
        assert(nt =~= old_t.insert(p as int, x@));
        assert forall|i: int, j: int| 0 <= i < j < nt.len() implies lex_lt(#[trigger] nt[i], #[trigger] nt[j]) by {
            if j < p {
            } else if j == p {
            } else if i < p {
                lemma_lex_transitive(nt[i], x@, nt[j]);
            } else if i == p {
            } else {
            }
        }
        assert forall|t: Seq<char>| nt.contains(t) <==> (old_t.contains(t) || t == x@) by {
            if nt.contains(t) {
                let k = choose|k: int| 0 <= k < nt.len() && nt[k] == t;
                if k < p {
                    assert(old_t[k] == t);
                } else if k > p {
                    assert(old_t[k - 1] == t);
                }
            }
            if old_t.contains(t) {
                let k = choose|k: int| 0 <= k < old_t.len() && old_t[k] == t;
                if k < p {
                    assert(nt[k] == t);
                } else {
                    assert(nt[k + 1] == t);
                }
            }
            if t == x@ {
                assert(nt[p as int] == t);
            }
        }
    }
}

/// The sessions of `entries` that go to folder `name`, in order.
pub open spec fn sessions_in(entries: Seq<(Seq<char>, Seq<char>, Seq<char>, u16, Seq<char>)>, name: Seq<char>) -> Seq<(Seq<char>, Seq<char>, Seq<char>, u16, Seq<char>)> {
    entries.filter(|e: (Seq<char>, Seq<char>, Seq<char>, u16, Seq<char>)| e.0 == name)
}

/// A connection imported from session `e`: its name, host, port and user, agent auth, no
/// sealed password, no tint, and a fresh id.
pub open spec fn imported_connection(c: SavedConnection, e: (Seq<char>, Seq<char>, Seq<char>, u16, Seq<char>)) -> bool {
    &&& c.display_name@ == e.1
    &&& c.host@ == e.2
    &&& c.port == e.3
    &&& c.username@ == e.4
    &&& c.auth is Agent
    &&& c.encrypted_password is None
    &&& c.text_tint_rgba is None
    &&& c.id@.len() == 36
}

/// The folder for name `name`: its sessions of `entries`, in order, as connections.
pub open spec fn imported_folder(f: Folder, entries: Seq<(Seq<char>, Seq<char>, Seq<char>, u16, Seq<char>)>) -> bool {
    let mine = sessions_in(entries, f.name@);
    &&& f.connections@.len() == mine.len()
    &&& forall|j: int| 0 <= j < mine.len() ==> imported_connection(#[trigger] f.connections@[j], mine[j])
    &&& f.subfolders@.len() == 0
    &&& f.expanded
    &&& f.text_tint_rgba is None
    &&& f.id@.len() == 36
}

/// The folders of a SuperPuTTY import: one per folder name used by the sessions, in name
/// order, each holding its sessions in document order.
pub open spec fn imported_folders(fs: Seq<Folder>, entries: Seq<(Seq<char>, Seq<char>, Seq<char>, u16, Seq<char>)>) -> bool {
    &&& strictly_sorted(fs.map_values(|f: Folder| f.name@))
    &&& forall|i: int| 0 <= i < fs.len() ==> imported_folder(#[trigger] fs[i], entries)
    &&& forall|i: int| 0 <= i < fs.len() ==> #[trigger] name_used(entries, fs[i].name@)
    &&& forall|k: int| 0 <= k < entries.len() ==> #[trigger] name_present(fs, entries[k].0)
}

/// Whether some session goes to folder `name`.
pub open spec fn name_used(entries: Seq<(Seq<char>, Seq<char>, Seq<char>, u16, Seq<char>)>, name: Seq<char>) -> bool {
    exists|k: int| 0 <= k < entries.len() && (#[trigger] entries[k]).0 == name
}

/// Whether some folder of `fs` is named `name`.
pub open spec fn name_present(fs: Seq<Folder>, name: Seq<char>) -> bool {
    exists|i: int| 0 <= i < fs.len() && (#[trigger] fs[i]).name@ == name
}

/// The connections for the sessions of `entries` that go to folder `name`.
fn connections_for(entries: &Vec<SessionEntry>, name: &String) -> (cs: Vec<SavedConnection>)
    ensures
        cs@.len() == sessions_in(entries@.map_values(|e: SessionEntry| entry_view(e)), name@).len(),
        forall|j: int| 0 <= j < cs@.len() ==> imported_connection(#[trigger] cs@[j], sessions_in(entries@.map_values(|e: SessionEntry| entry_view(e)), name@)[j]),
{
    let ghost ev = entries@.map_values(|e: SessionEntry| entry_view(e));
    let ghost pred = |e: (Seq<char>, Seq<char>, Seq<char>, u16, Seq<char>)| e.0 == name@;
    let mut cs: Vec<SavedConnection> = Vec::new();
    let mut k: usize = 0;
    proof {
        reveal(Seq::filter);
        assert(ev.take(0).filter(pred) =~= Seq::<(Seq<char>, Seq<char>, Seq<char>, u16, Seq<char>)>::empty());
    }
    while k < entries.len()
        invariant
            k <= entries.len(),
            ev == entries@.map_values(|e: SessionEntry| entry_view(e)),
            pred == (|e: (Seq<char>, Seq<char>, Seq<char>, u16, Seq<char>)| e.0 == name@),
            cs@.len() == ev.take(k as int).filter(pred).len(),
            forall|j: int| 0 <= j < cs@.len() ==> imported_connection(#[trigger] cs@[j], ev.take(k as int).filter(pred)[j]),
        decreases entries.len() - k,
    {
        proof {
            reveal(Seq::filter);
            assert(ev.take(k + 1).drop_last() == ev.take(k as int));
            assert(ev.take(k + 1).last() == entry_view(entries@[k as int]));
        }
        let e = &entries[k];
        if same_text(e.folder.as_str(), name.as_str()) {
            cs.push(SavedConnection {
                id: new_uuid(),
                display_name: e.name.clone(),
                host: e.host.clone(),
                port: e.port,
                username: e.username.clone(),
                auth: AuthMethod::Agent,
                encrypted_password: None,
                text_tint_rgba: None,
            });
        }
        k += 1;
    }
    assert(ev.take(entries.len() as int) == ev);
    cs
}

/// The folder names used by `entries`, sorted, each once.
fn folder_names(entries: &Vec<SessionEntry>) -> (names: Vec<String>)
    ensures
        strictly_sorted(texts(names@)),
        forall|t: Seq<char>| texts(names@).contains(t) <==> exists|k: int| 0 <= k < entries@.len() && (#[trigger] entries@[k]).folder@ == t,
{
    let mut names: Vec<String> = Vec::new();
    let mut k: usize = 0;
    while k < entries.len()
        invariant
            k <= entries.len(),
            strictly_sorted(texts(names@)),
            forall|t: Seq<char>| texts(names@).contains(t) <==> exists|q: int| 0 <= q < k && (#[trigger] entries@[q]).folder@ == t,
        decreases entries.len() - k,
    {
        insert_sorted(&mut names, entries[k].folder.clone());
        proof {
            assert forall|t: Seq<char>| texts(names@).contains(t) <==> exists|q: int| 0 <= q < k + 1 && (#[trigger] entries@[q]).folder@ == t by {
                if t == entries@[k as int].folder@ {
                    assert(entries@[k as int].folder@ == t);
                }
                if exists|q: int| 0 <= q < k + 1 && (#[trigger] entries@[q]).folder@ == t {
                    let q = choose|q: int| 0 <= q < k + 1 && (#[trigger] entries@[q]).folder@ == t;
                    if q < k {
                        assert(exists|q: int| 0 <= q < k && (#[trigger] entries@[q]).folder@ == t);
                    }
                }
            }
        }
        k += 1;
    }
    names
}

/// The export of the parsed nodes of a SuperPuTTY session file: its sessions grouped into
/// folders by the part of their id before `/`, stamped with the current time; refused when
/// the file holds no session.
pub fn export_from_xml_nodes(nodes: Vec<XmlNode>) -> (r: Result<ServerExport, ConfigError>)
    ensures
        ({
            let entries = session_entries(nodes@.map_values(|n: XmlNode| xml_node_view(n)));
            if entries.len() == 0 {
                r matches Err(ConfigError::NoSessionData)
            } else {
                r matches Ok(x) && x.version == SERVER_EXPORT_VERSION && x.master_password is None
                    && imported_folders(x.folders@, entries)
            }
        }),
{
    let entries = session_entries_of(&nodes);
    let ghost ev = entries@.map_values(|e: SessionEntry| entry_view(e));
    if entries.len() == 0 {
        return Err(ConfigError::NoSessionData);
    }
    let names = folder_names(&entries);
    let mut folders: Vec<Folder> = Vec::new();
    let mut i: usize = 0;
    while i < names.len()
        invariant
            i <= names.len(),
            ev == entries@.map_values(|e: SessionEntry| entry_view(e)),
            folders@.len() == i,
            forall|j: int| 0 <= j < i ==> (#[trigger] folders@[j]).name@ == texts(names@)[j],
            forall|j: int| 0 <= j < i ==> imported_folder(#[trigger] folders@[j], ev),
        decreases names.len() - i,
    {
        let connections = connections_for(&entries, &names[i]);
        folders.push(Folder {
            id: new_uuid(),
            name: names[i].clone(),
            connections,
            subfolders: Vec::new(),
            expanded: true,
            text_tint_rgba: None,
        });
        i += 1;
    }
    proof {
        let nt = texts(names@);
        assert(folders@.map_values(|f: Folder| f.name@) =~= nt);
        assert forall|q: int| 0 <= q < folders@.len() implies #[trigger] name_used(ev, folders@[q].name@) by {
            assert(nt.contains(nt[q]));
            let k = choose|k: int| 0 <= k < entries@.len() && (#[trigger] entries@[k]).folder@ == nt[q];
            assert(ev[k].0 == nt[q]);
        }
        assert forall|k: int| 0 <= k < ev.len() implies #[trigger] name_present(folders@, ev[k].0) by {
            assert(entries@[k].folder@ == ev[k].0);
            assert(nt.contains(ev[k].0));
            let q = choose|q: int| 0 <= q < nt.len() && nt[q] == ev[k].0;
            assert(folders@[q].name@ == nt[q]);
        }
        assert(imported_folders(folders@, ev));
    }
    Ok(ServerExport {
        version: SERVER_EXPORT_VERSION,
        exported_at_utc: now_utc_rfc3339(),
        folders,
        master_password: None,
    })
}

/// Reads a SuperPuTTY session file into an export: its sessions grouped into folders by
/// the part of their id before `/`, stamped with the current time.
pub fn import_superputty_xml(contents: &str) -> (r: Result<ServerExport, ConfigError>)
    ensures
        match xml_parse_outcome(contents@) {
            Err(msg) => r matches Err(ConfigError::InvalidXml(m)) && m@ == msg,
            Ok(nodes) => {
                let entries = session_entries(nodes);
                if entries.len() == 0 {
                    r matches Err(ConfigError::NoSessionData)
                } else {
                    r matches Ok(x) && x.version == SERVER_EXPORT_VERSION && x.master_password is None
                        && imported_folders(x.folders@, entries)
                }
            },
        },
{
    let nodes = match parse_xml_nodes(contents) {
        Ok(n) => n,
        Err(msg) => return Err(ConfigError::InvalidXml(msg)),
    };
    export_from_xml_nodes(nodes)
}

/// Reads an import file's `contents`: SuperPuTTY XML when it looks like it, else the JSON
/// export that the caller parsed from the same contents (`json`: the export, or the JSON
/// parser's message); either is then checked with `validate_server_export`.
pub fn import_servers(contents: &str, json: Result<ServerExport, String>) -> (r: Result<
    ServerExport,
    ConfigError,
>)
    ensures
        spec_looks_like_superputty_xml(contents@) ==> match xml_parse_outcome(contents@) {
            Err(msg) => r matches Err(ConfigError::InvalidXml(m)) && m@ == msg,
            Ok(nodes) => {
                let entries = session_entries(nodes);
                if entries.len() == 0 {
                    r matches Err(ConfigError::NoSessionData)
                } else {
                    r matches Ok(x) && x.version == SERVER_EXPORT_VERSION && x.master_password is None
                        && imported_folders(x.folders@, entries)
                }
            },
        },
        !spec_looks_like_superputty_xml(contents@) ==> match json {
            Err(msg) => r matches Err(ConfigError::InvalidJson(m)) && m@ == msg@,
            Ok(x) => match export_verdict(x.version, folders_view(x.folders@), x.master_password) {
                Ok(_) => r == Ok::<ServerExport, ConfigError>(x),
                Err(e) => r == Err::<ServerExport, ConfigError>(e),
            },
        },
{
    if looks_like_superputty_xml(contents) {
        let export = import_superputty_xml(contents)?;
        proof {
            lemma_imported_export_valid(export.folders@, session_entries(xml_parse_outcome(contents@)->Ok_0));
        }
        validate_server_export(&export)?;
        return Ok(export);
    }
    match json {
        Err(msg) => Err(ConfigError::InvalidJson(msg)),
        Ok(export) => {
            match validate_server_export(&export) {
                Ok(()) => Ok(export),
                Err(e) => Err(e),
            }
        },
    }
}

/// What `export_servers` gives for a config passes the check that `import_servers` makes on a
/// JSON export: reading an export back gives the same export.
pub proof fn lemma_export_reads_back(config: AppConfig, export: ServerExport)
    requires
        export_verdict(SERVER_EXPORT_VERSION, folders_view(config.folders@), export_master_password(config)) is Ok,
        export.version == SERVER_EXPORT_VERSION,
        folders_view(export.folders@) == folders_view(config.folders@),
        export.master_password == export_master_password(config),
    ensures
        export_verdict(export.version, folders_view(export.folders@), export.master_password) is Ok,
{
}

/// Folders imported from SuperPuTTY hold no sealed password and no password-auth connection,
/// so such an export always passes `validate_server_export`.
pub proof fn lemma_imported_export_valid(fs: Seq<Folder>, entries: Seq<(Seq<char>, Seq<char>, Seq<char>, u16, Seq<char>)>)
    requires
        forall|i: int| 0 <= i < fs.len() ==> imported_folder(#[trigger] fs[i], entries),
    ensures
        !any_encrypted(folders_view(fs)),
        !any_unsealed_password(folders_view(fs)),
    decreases fs.len(),
{
    if fs.len() > 0 {
        lemma_imported_export_valid(fs.drop_last(), entries);
        let last = fs.last();
        assert(folders_view(fs).drop_last() == folders_view(fs.drop_last()));
        assert(folders_view(fs).last() == folder_view(last));
        assert(imported_folder(fs[fs.len() - 1], entries));
        assert(folders_view(last.subfolders@) =~= Seq::<FolderView>::empty());
        let mine = sessions_in(entries, last.name@);
        assert forall|j: int| 0 <= j < last.connections@.len() implies !has_secret(#[trigger] last.connections@[j]) && !unsealed_password(last.connections@[j]) by {
            assert(imported_connection(last.connections@[j], mine[j]));
        }
        assert(folder_view(last).connections == last.connections@);
        assert(!any_encrypted(folder_view(last).subfolders));
        assert(!any_unsealed_password(folder_view(last).subfolders));
    }
}

} // verus!
