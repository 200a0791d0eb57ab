//! The state behind the terminal interface: panes, the catalog browser, dialogs,
//! jobs and the log view. Drawing and input are outside.

pub mod browser;
pub mod catalog;
pub mod catalog_jobs;
pub mod downloads;
pub mod editor;
pub mod hub;
pub mod jobs;
pub mod keys;
pub mod launch;
pub mod log;
pub mod modals;
pub mod online;
pub mod panes;
pub mod profile_edits;
pub mod search;
pub mod session_view;
pub mod status;
