//! A small verified note-taking library.
//!
//! Notes are titled, timestamped records with an optional content variant
//! (a filesystem path, a link, or freeform text). A store keeps them in
//! ascending timestamp order, lists the unarchived ones, looks notes up by
//! their position in that listing, and archives them by position.

pub mod cli;
pub mod display;
pub mod errors;
pub mod note;
pub mod rows;
pub mod store;
