//! Provisioning and supervision logic for an external interpreter-based worker:
//! interpreter version rules, runtime manifests and their bundles, URL scheme
//! policy, archive checksums, the bootstrap cascade, and the worker job slot and
//! session protocol.

pub mod checksum;
pub mod detect;
pub mod manifest;
pub mod runtime;
pub mod scheme;
pub mod text;
pub mod version;
pub mod worker;
