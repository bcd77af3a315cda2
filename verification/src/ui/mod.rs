pub mod scp;
pub mod terminal_view;
pub mod tree;
