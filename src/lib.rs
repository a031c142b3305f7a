//! An incrementally filtered selection menu: fuzzy ranking of candidate
//! lines, the menu's key-driven state machine, the geometry of its window,
//! and the plain-data side of its widgets.
pub mod fuzzy;
pub mod geometry;
pub mod hooks;
pub mod menu;
pub mod widgets;
