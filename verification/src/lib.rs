//! Model discovery, profiles, launch commands and browser state for local
//! inference servers.

pub mod app;
pub mod chars;
pub mod config;
pub mod discovery;
pub mod domain;
pub mod hub;
pub mod names;
pub mod number;
pub mod order;
pub mod path;
pub mod pattern;
pub mod persistence;
pub mod profiles;
pub mod runtime;
pub mod table;
pub mod text;
pub mod url;
