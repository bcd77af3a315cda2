use vstd::prelude::*;

use crate::services::ssh::PortForwardRule;

verus! {

/// The rename-session dialog.
#[derive(Debug)]
pub struct SessionRenameState {
    pub open: bool,
    pub tab_idx: Option<usize>,
    pub new_name: String,
}

impl Default for SessionRenameState {
    fn default() -> (s: Self)
        ensures
            !s.open,
            s.tab_idx is None,
            s.new_name@ == Seq::<char>::empty(),
    {
        SessionRenameState { open: false, tab_idx: None, new_name: String::new() }
    }
}

impl Clone for SessionRenameState {
    fn clone(&self) -> (res: Self)
        ensures
            res == *self,
    {
        SessionRenameState { open: self.open, tab_idx: self.tab_idx, new_name: self.new_name.clone() }
    }
}

/// A copy of a list of port forwards.
pub fn clone_rules(rules: &Vec<PortForwardRule>) -> (out: Vec<PortForwardRule>)
    ensures
        out@ == rules@,
{
    let mut out: Vec<PortForwardRule> = Vec::new();
    let mut i: usize = 0;
    while i < rules.len()
        invariant
            i <= rules.len(),
            out@ == rules@.take(i as int),
        decreases rules.len() - i,
    {
        out.push(rules[i].clone());
        assert(rules@.take(i + 1) == rules@.take(i as int).push(rules@[i as int]));
        i += 1;
    }
    assert(rules@.take(rules.len() as int) == rules@);
    out
}

/// The session-settings dialog: a session's port forwards and the fields for a new local and a
/// new remote forward.
#[derive(Debug)]
pub struct SessionSettingsState {
    pub open: bool,
    pub tab_idx: Option<usize>,
    pub rules: Vec<PortForwardRule>,
    pub local_listen_host: String,
    pub local_listen_port: String,
    pub local_target_host: String,
    pub local_target_port: String,
    pub remote_listen_host: String,
    pub remote_listen_port: String,
    pub remote_target_host: String,
    pub remote_target_port: String,
}

impl Default for SessionSettingsState {
    /// Closed, no session, no forwards; new forwards listen on 127.0.0.1:8080 and reach
    /// 127.0.0.1:80.
    fn default() -> (s: Self)
        ensures
            !s.open,
            s.tab_idx is None,
            s.rules@.len() == 0,
            s.local_listen_host@ == "127.0.0.1"@,
            s.local_listen_port@ == "8080"@,
            s.local_target_host@ == "127.0.0.1"@,
            s.local_target_port@ == "80"@,
            s.remote_listen_host@ == "127.0.0.1"@,
            s.remote_listen_port@ == "8080"@,
            s.remote_target_host@ == "127.0.0.1"@,
            s.remote_target_port@ == "80"@,
    {
        SessionSettingsState {
            open: false,
            tab_idx: None,
            rules: Vec::new(),
            local_listen_host: String::from_str("127.0.0.1"),
            local_listen_port: String::from_str("8080"),
            local_target_host: String::from_str("127.0.0.1"),
            local_target_port: String::from_str("80"),
            remote_listen_host: String::from_str("127.0.0.1"),
            remote_listen_port: String::from_str("8080"),
            remote_target_host: String::from_str("127.0.0.1"),
            remote_target_port: String::from_str("80"),
        }
    }
}

impl Clone for SessionSettingsState {
    fn clone(&self) -> (res: Self)
        ensures
            res.open == self.open,
            res.tab_idx == self.tab_idx,
            res.rules@ == self.rules@,
            res.local_listen_host == self.local_listen_host,
            res.local_listen_port == self.local_listen_port,
            res.local_target_host == self.local_target_host,
            res.local_target_port == self.local_target_port,
            res.remote_listen_host == self.remote_listen_host,
            res.remote_listen_port == self.remote_listen_port,
            res.remote_target_host == self.remote_target_host,
            res.remote_target_port == self.remote_target_port,
    {
        SessionSettingsState {
            open: self.open,
            tab_idx: self.tab_idx,
            rules: clone_rules(&self.rules),
            local_listen_host: self.local_listen_host.clone(),
            local_listen_port: self.local_listen_port.clone(),
            local_target_host: self.local_target_host.clone(),
            local_target_port: self.local_target_port.clone(),
            remote_listen_host: self.remote_listen_host.clone(),
            remote_listen_port: self.remote_listen_port.clone(),
            remote_target_host: self.remote_target_host.clone(),
            remote_target_port: self.remote_target_port.clone(),
        }
    }
}

/// The dialog that adds or edits a Tailscale group rule.
#[derive(Debug)]
pub struct TsGroupEditorState {
    pub open: bool,
    pub name: String,
    pub pattern: String,
    pub editing_id: Option<String>,
}

impl Default for TsGroupEditorState {
    fn default() -> (s: Self)
        ensures
            !s.open,
            s.name@ == Seq::<char>::empty(),
            s.pattern@ == Seq::<char>::empty(),
            s.editing_id is None,
    {
        TsGroupEditorState { open: false, name: String::new(), pattern: String::new(), editing_id: None }
    }
}

impl Clone for TsGroupEditorState {
    fn clone(&self) -> (res: Self)
        ensures
            res == *self,
    {
        TsGroupEditorState {
            open: self.open,
            name: self.name.clone(),
            pattern: self.pattern.clone(),
            editing_id: match &self.editing_id {
                Some(id) => Some(id.clone()),
                None => None,
            },
        }
    }
}

/// The application settings dialog.
#[derive(Debug, Clone, Copy, PartialEq, Eq, Structural)]
pub struct AppSettingsState {
    pub open: bool,
}

impl Default for AppSettingsState {
    fn default() -> (s: Self)
        ensures
            !s.open,
    {
        AppSettingsState { open: false }
    }
}

/// Which way a file transfer goes.
#[derive(Debug, Clone, Copy, PartialEq, Eq, Structural)]
pub enum ScpDirectionState {
    LocalToRemote,
    RemoteToLocal,
}

impl Default for ScpDirectionState {
    fn default() -> (s: Self)
        ensures
            s == ScpDirectionState::LocalToRemote,
    {
        ScpDirectionState::LocalToRemote
    }
}

/// How a file transfer authenticates.
#[derive(Debug, Clone, Copy, PartialEq, Eq, Structural)]
pub enum ScpAuthModeState {
    Key,
    Password,
    Agent,
}

impl Default for ScpAuthModeState {
    fn default() -> (s: Self)
        ensures
            s == ScpAuthModeState::Key,
    {
        ScpAuthModeState::Key
    }
}

/// Whether the master-password dialog creates a new master password or unlocks the stored one.
#[derive(Debug, Clone, Copy, PartialEq, Eq, Structural)]
pub enum MasterPasswordMode {
    Create,
    Unlock,
}

} // verus!
