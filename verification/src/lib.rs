//! Core engine library of the manga reader.
pub mod archive;
pub mod engine;
pub mod models;
pub mod cache;
pub mod cb7;
pub mod cbt;
pub mod cbz;
pub mod gui;
pub mod hot;
pub mod imaging;
pub mod panel;
pub mod plugin;
pub mod protocol;
pub mod schema;
mod text;
