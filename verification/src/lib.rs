//! A library for managing versioned web-stack tool archives: an in-memory
//! release catalog, a per-package version registry fed by a download
//! directory, a download-task state machine with failure cleanup, and an
//! installer that validates a version and plans the extraction of its
//! archive.

pub mod api;
pub mod commands;
pub mod download;
pub mod extract;
pub mod file;
pub mod package;
pub mod strmap;
pub mod text;
