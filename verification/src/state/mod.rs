pub mod actions;
pub mod connect;
pub mod dialogs;
pub mod forms;
