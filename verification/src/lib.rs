pub mod text;
pub mod strmap;

pub mod yaml;
pub mod config;
pub mod manager;
pub mod status;
pub mod selection;
pub mod app;
pub mod events;
pub mod exec;
pub mod terminal;
pub mod system;
pub mod ui;
