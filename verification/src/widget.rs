//! Widgets.

pub mod button;
pub mod checkbox;
pub mod grid;
pub mod label;
pub mod list;
pub mod menu;
pub mod window;
