//! Borderless window placement: the geometry of where a stripped window lands,
//! the settings file, the labels of the interface, the icon cache and the
//! bookkeeping that lets a window's frame be put back exactly.

pub mod app;
pub mod config;
pub mod icon;
pub mod sorting;
pub mod text;
pub mod ui;
pub mod window_manager;
