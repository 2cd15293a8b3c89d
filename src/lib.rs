//! Hostly: named hosts-file profiles, their activation rules, the merged
//! hosts file they produce, and the backup and third-party import formats.
pub mod backup;
pub mod cli;
pub mod error;
pub mod json;
pub mod model;
pub mod paths;
pub mod profiles;
pub mod selection;
pub mod switchhosts;
pub mod synth;
