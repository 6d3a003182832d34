//! Toolpulse: a monitor of the developer tools installed on a machine.
//!
//! The library holds the decisions of the application: how versions are read
//! and compared, which tools and packages there are and what their manifests
//! and listings declare, which files and directories the disk walks keep,
//! what each command runs, and when the user is notified. The caller runs the
//! processes, network requests and directory reads and hands their answers
//! back; the disk walks' order, visits and caps are decided here.

pub mod text;
pub mod types;
pub mod checker;
pub mod registry;
pub mod settings;
pub mod scheduler;
pub mod json;
pub mod latest;
pub mod commands;
pub mod runner;
pub mod tray;
pub mod versions;
pub mod projects;
pub mod packages;
pub mod sizes;
pub mod source_files;
pub mod history;
pub mod platform;
pub mod walk;
