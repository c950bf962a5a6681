//! The data model shared by the gallery tools and the store server.
pub mod datamodel;
pub mod print;
pub mod api;
