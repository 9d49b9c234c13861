//! Display configuration and interactive selection for a pre-boot splash screen:
//! a persisted key/value configuration with change-tracked write-back, a
//! bounds-checked pixel surface with colour-keyed compositing, and a cyclic
//! key-driven selection menu.
pub mod bytes;
pub mod color;
pub mod config;
pub mod decimal;
pub mod dialog;
pub mod keyvalue;
pub mod laws;
pub mod logo;
pub mod menu;
pub mod record;
pub mod selftest;
pub mod store;
pub mod surface;
