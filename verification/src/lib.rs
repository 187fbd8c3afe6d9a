//! blobfind — inventories native binaries, shared libraries and
//! high-entropy blobs hiding inside dependency trees, with provenance
//! hints. This crate holds the verified core: format sniffing, the
//! classification and hint rules, provenance resolution, the lock file
//! and its diff, SHA-256, the walk's decisions, the command line and
//! every report.

pub mod baseline;
pub mod cli;
pub mod entropy;
pub mod inventory;
pub mod json;
pub mod order;
pub mod paths;
pub mod provenance;
pub mod report;
pub mod sha256;
pub mod sniff;
pub mod text;
pub mod util;
pub mod walk;
