//! Notes kept as Markdown files in a version-controlled repository: how
//! notes are named and catalogued, how a note is picked at the prompt, and
//! what is staged and committed to keep the repository in line with the
//! files. The library decides; its caller reads the files, runs the
//! programs and carries out the actions that the library hands back.

pub mod action;
pub mod bootstrap;
pub mod catalog;
pub mod cli;
pub mod config;
pub mod editor;
pub mod manifest;
pub mod note;
pub mod order;
pub mod pattern;
pub mod persist;
pub mod selector;
pub mod text;
