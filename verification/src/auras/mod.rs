//! The overlay windows: the delay display, the Neltharion aura and the
//! scripted aura.
pub mod delay_display;
pub mod lua_aura;
pub mod nelth_aura;
pub mod nelth_laws;
