//! Interactive editing of configuration files derived from templates: the
//! unified entry model and its per-format translations (env, nested
//! documents, XML, INI, properties), template merging, template/active file
//! pairing, the editing state with its undo history, key handling, the
//! texts of the screen, and the user's settings.

pub mod text;
pub mod format;
pub mod undo;
pub mod app;
pub mod resolver;
pub mod config;
pub mod input;
pub mod runner;
pub mod view;
pub mod error;
pub mod cli;
