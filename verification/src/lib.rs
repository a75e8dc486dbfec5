//! Verified core of a desktop staff-administration shell: the background
//! sync supervisor (periodic work, cooperative shutdown, outcome reporting)
//! together with the small pure computations behind the shell's commands
//! (credential payloads, XOR obfuscation, receipt rendering, update checks).

pub mod auth;
pub mod bytescan;
pub mod crypto;
pub mod hardware;
pub mod print;
pub mod sync;
pub mod tray;
pub mod updates;
