//! Decision logic of Lintel, a background utility that mirrors the menu bar of the focused
//! application in a floating bar above its window.

pub mod cli;
pub mod config;
pub mod document;
pub mod fuzzy;
pub mod geometry;
pub mod hotkey;
pub mod index;
pub mod menu;
pub mod mirror;
pub mod observer;
pub mod overlay;
pub mod palette;
pub mod settings;
pub mod text;
