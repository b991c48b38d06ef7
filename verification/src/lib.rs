//! xconsoler: a long-bar keyboard launcher for the terminal.
//!
//! The library holds the launcher's logic: the alias model and its
//! mutations, colon-command parsing, fuzzy ranking, line editing, the
//! persisted store and its migrations, key specs, window fitting and the
//! settings page's effect handling. Terminal I/O, process spawning and the
//! JSON file live in the binary around it.

pub mod text;
pub mod search;
pub mod order;
pub mod shortcuts;
pub mod platform;
pub mod clipboard;
pub mod alias;
pub mod launch;
pub mod exec;
pub mod fuzzy;
pub mod commands;
pub mod keyspec;
pub mod storage;
pub mod history;
pub mod words;
pub mod colon;
pub mod textedit;
pub mod decimal;
pub mod fit_tmux;
pub mod fit;
pub mod matcher;
pub mod settings_form;
pub mod settings;
pub mod state;
pub mod settings_apply;
pub mod action;
pub mod app;
pub mod run;
pub mod escguard;
pub mod cli;
pub mod bookmarks;
pub mod layout;
