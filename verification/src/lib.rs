//! Packages a JavaScript application together with a portable runtime into a
//! single native launcher.
//!
//! The library holds the verified core: dependency-graph resolution across
//! package-manager layouts, source-directory selection, archive entry
//! planning with a path-escape guard, the launcher's cache-and-lock
//! protocol, and version parsing and selection for the embedded runtime.
//! File, network and process I/O live outside the library and hand it plain
//! values.

pub mod archive;
pub mod bundle;
pub mod launcher;
pub mod layout;
pub mod manifest;
pub mod naming;
pub mod platform;
pub mod resolver;
pub mod source_dir;
pub mod strutil;
pub mod toolchain;
pub mod version;
