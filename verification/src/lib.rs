//! A checker for the Epitech C coding style.
//!
//! Each rule family lives in `rules::c_<letter>`; every check takes a file
//! name and its content and returns the diagnostics it finds, in order.
pub mod diagnostic;
pub mod text;
pub mod syntax;
pub mod stdlib;
pub mod pattern;
pub mod rules;

