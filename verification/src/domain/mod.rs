pub mod connection;
pub mod folder_tree;
pub mod session;
pub mod types;
