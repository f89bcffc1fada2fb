//! Audits installed packages for executables with unresolvable libraries,
//! files left behind for an older Python interpreter, and broken links
//! behind enabled services. This crate holds the decisions: reading the
//! tools' output, choosing what to check, counting progress, and writing
//! the report. Running the tools and walking the filesystem are left to the
//! caller.
pub mod discovery;
pub mod linker;
pub mod links;
pub mod pipeline;
pub mod report;
pub mod stale;
pub mod text;
pub mod version;
