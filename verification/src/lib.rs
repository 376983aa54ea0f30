//! Finds the shadow windows that some programs leave on an X11 display and
//! says which of them to unmap. The library decides; the program around it
//! talks to the display server, keeps the target list in its file and shows
//! the tray icon.

pub mod classifier;
pub mod config;
pub mod display;
pub mod poll;
pub mod scan_laws;
pub mod scanner;
pub mod target_laws;
pub mod targets;
pub mod text;
