//! Clipboard URL scrubbing: the rules that decide which query parameters,
//! path pieces and fragments of a link are tracking junk, and the state
//! machines of the clipboard watcher and of the monitoring view.

pub mod pattern;
pub mod text;
pub mod web_url;
pub mod rules;
pub mod table;
pub mod config;
pub mod url_cleaner;
pub mod stats;
pub mod worker;
pub mod ui;
