pub mod config;
pub mod crypto;
pub mod scp;
pub mod ssh;
pub mod ssh_keys;
pub mod tailscale;
