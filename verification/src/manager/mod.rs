//! The gallery manager: dependency tracking between resources, the rules of
//! generated content, and the layout of the resource folders.
pub mod dependency;
pub mod generate;
pub mod cli;
pub mod cleanup;
pub mod config;
pub mod templates;
pub mod thumbnails;
pub mod image;
pub mod clone;
pub mod dropbox;
pub mod categories;
pub mod print;
pub mod select;
