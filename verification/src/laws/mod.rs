//! What the operations of the library are for: how their results relate to what they are given.

pub mod counting;
pub mod keys;
pub mod lists;
pub mod packing;
pub mod terms;
pub mod texts;
pub mod screen;
pub mod session;
pub mod settings;
pub mod totals;
pub mod tree;
pub mod views;
