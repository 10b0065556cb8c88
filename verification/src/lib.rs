//! A verified engine for one-shot text editing commands.
//!
//! The engine receives a structured request (view, create, replace, insert,
//! delete, undo) aimed at one path, performs a single bounded operation on
//! in-memory text or a directory listing, and returns either a confirmation
//! message or a classified error.  All file-system access is left to the
//! caller: the engine works on plain values (path names, file contents,
//! directory entries) and states in its contracts exactly what it returns.

pub mod strings;
pub mod lines;
pub mod command;
pub mod errors;
pub mod snippet;
pub mod view;
pub mod replace;
pub mod ops;
pub mod engine;
