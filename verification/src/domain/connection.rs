use vstd::prelude::*;

use crate::services::crypto::EncryptedSecret;

verus! {

/// A server entry that the user saved in the connection tree.
#[derive(Debug)]
pub struct SavedConnection {
    pub id: String,
    pub display_name: String,
    pub host: String,
    pub port: u16,
    pub username: String,
    pub auth: AuthMethod,
    pub encrypted_password: Option<EncryptedSecret>,
    pub text_tint_rgba: Option<[u8; 4]>,
}

/// How a saved connection authenticates.
#[derive(Debug)]
pub enum AuthMethod {
    /// A private key file; `path` is the key file's path as text.
    Key { path: String, passphrase_required: bool },
    Password,
    Agent,
}

impl Clone for AuthMethod {
    fn clone(&self) -> (res: Self)
        ensures
            res == *self,
    {
        match self {
            AuthMethod::Key { path, passphrase_required } => AuthMethod::Key {
                path: path.clone(),
                passphrase_required: *passphrase_required,
            },
            AuthMethod::Password => AuthMethod::Password,
            AuthMethod::Agent => AuthMethod::Agent,
        }
    }
}

impl Clone for SavedConnection {
    fn clone(&self) -> (res: Self)
        ensures
            res == *self,
    {
        SavedConnection {
            id: self.id.clone(),
            display_name: self.display_name.clone(),
            host: self.host.clone(),
            port: self.port,
            username: self.username.clone(),
            auth: self.auth.clone(),
            encrypted_password: match &self.encrypted_password {
                Some(e) => Some(e.clone()),
                None => None,
            },
            text_tint_rgba: self.text_tint_rgba,
        }
    }
}

} // verus!
