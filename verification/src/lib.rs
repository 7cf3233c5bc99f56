//! Settings of ELAN haptic touchpads, read and changed over hidraw feature reports.
//!
//! The library holds the decisions: which device to work with, what to ask it and in which order
//! to change its settings, how to recover from a failure, and what to report. All of it is
//! verified. Files, ioctls and the command line stay with the program that uses it.
pub mod command;
pub mod command_laws;
pub mod device;
pub mod device_laws;
pub mod devnum;
pub mod document;
pub mod elan;
pub mod error;
pub mod json;
pub mod laws;
pub mod message_laws;
pub mod opener;
pub mod opening;
pub mod output_laws;
pub mod plan;
pub mod protocol;
pub mod selection;
pub mod selection_laws;
pub mod settings_laws;
pub mod text;
pub mod text_laws;
pub mod update;
pub mod update_laws;
pub mod view_laws;
pub mod wire_laws;
