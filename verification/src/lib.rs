pub mod domain;
pub mod languages;
pub mod services;
pub mod state;
pub mod terminal;
pub mod text;
pub mod ui;
