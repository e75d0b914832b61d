//! Reading the combat log: replaying an old one, or following a live one.
pub mod file_replayer;
pub mod file_watcher;
