//! Orchestration core for networked 3D printers: cloud sign-in and roster
//! retrieval, local-network discovery that attaches addresses to devices, and
//! a manager for per-device status sessions.
pub mod client;
pub mod config;
pub mod devices;
pub mod json;
pub mod ssdp;
pub mod text;
pub mod watch;
