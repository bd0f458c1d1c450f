//! Core of a multi-window browser shell: session orchestration with a
//! crash-recovery URL log, privacy-context selection, and download
//! destination handling with collision-free filename resolution. Rendering
//! itself, file and network I/O, and the windowing toolkit stay outside; the
//! library takes plain values and answers with the state changes and
//! commands the host must carry out.

pub mod privacy;
pub mod strutil;
pub mod log;
pub mod session;
pub mod download;
pub mod urls;
pub mod window;
