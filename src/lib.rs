//! Item resolution for a desktop launcher: application entries, recent
//! files and ad-hoc shell commands, filtered and ranked against a query.
pub mod app_info;
pub mod catalog;
pub mod entry;
pub mod launch;
pub mod paths;
pub mod recent;
pub mod search;
pub mod settings;
pub mod text;
pub mod thumbnail;
pub mod xbel;
