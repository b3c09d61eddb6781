//! Synchronisation of locally curated playlists onto a portable music device.
//!
//! The library holds the decisions of the pipeline: name sanitising, the scan
//! of the local playlist tree into an upload plan, the renaming policy of the
//! staging copy, and the order of the device operations for wiping and
//! rebuilding the music library. Reading files, talking to the device and
//! editing tags are left to the caller.

mod text;
pub mod sanitize;
pub mod naming;
pub mod plan;
pub mod scan;
pub mod staging;
pub mod device;
pub mod consistency;
pub mod run;
