//! Monitor layout management for Hyprland: modes, transforms, geometry,
//! edge snapping, mirror-mode matching, and the persisted rule and profile
//! formats.

pub mod layout;
pub mod mirror;
pub mod monitor;
pub mod profile;
pub mod store;
pub mod text;
pub mod ui;
