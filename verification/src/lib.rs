//! A retained-mode widget runtime.
//!
//! The crate holds the engine that every widget shares: hierarchical widget
//! identity, the two-pass sizing protocol, the event manager with its pointer
//! grabs and popup stack, response propagation, the delivery of updates to
//! all windows, and the menu widgets built on top of these.
//!
//! Every item is verified against a mathematical model of the widget tree
//! and of the manager: what a widget or the manager does is a function on
//! these models, and the executable code is proved to compute it. The laws
//! that hold of all trees, such as the order of identifiers, that a grab has
//! one holder, or that a menu bar has one menu open at most, are proved of
//! the models.

pub mod class;
pub mod data;
pub mod driver;
pub mod event;
pub mod geom;
pub mod grid;
pub mod id;
pub mod layout;
pub mod manager;
pub mod shell;
pub mod theme;
pub mod traits;
pub mod widget;
