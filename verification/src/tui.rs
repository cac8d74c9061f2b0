//! The state behind the interactive views. Terminal input comes in as a [`keys::Key`], output
//! goes out as text.

pub mod action;
pub mod dashboard;
pub mod explorer;
pub mod keys;
pub mod list;
pub mod screen;
pub mod tree;
pub mod widget;
