//! Overlays for World of Warcraft built from the combat log that the game
//! writes to disk: parsing of log lines, the state of each overlay, and the
//! pacing of a replayed log.
pub mod auras;
pub mod combat_log;
pub mod combat_log_laws;
pub mod log_watchers;
pub mod main_window;
pub mod text;
pub mod text_laws;
