//! The parts of the dfget command line that decide what to say and do.

pub mod number_laws;
pub mod seed_import;
pub mod update_notice;
pub mod version;
pub mod version_laws;
