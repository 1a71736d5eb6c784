//! Flutter Version Manager: the logic of `fvm`, verified with Verus.
//!
//! The command-line program itself (argument reading, network, file system,
//! terminal output) lives in `app/`; everything that decides something lives here.

pub mod text;
pub mod alias;
pub mod releases;
pub mod installation_path;
pub mod doctor;
pub mod progress_bar;
pub mod download_release;
pub mod commands;
