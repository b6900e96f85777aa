//! Glorious Auto Polling Rate: switch a Glorious mouse's polling rate
//! automatically, high while a watched program runs and low the rest of the
//! time.
//!
//! This crate holds what the tool decides and computes, each with its
//! contract: reading the process list and the command table, choosing the HID
//! collection and building the report, following which programs run, the
//! autostart entry, and the tray's state and menu. The window, the registry,
//! the files and the device calls are performed by the program around it.
pub mod text;
pub mod config;
pub mod hid;
pub mod monitor;
pub mod autostart;
pub mod tray;
