//! Peer-to-peer exchange of files: the keys that name them, the protocol that
//! carries them, the seeds that a peer offers, and the client of the tracker.

pub mod content_key;
pub mod content_key_laws;
pub mod downloader;
pub mod files;
pub mod node;
pub mod registry;
pub mod seed_import;
pub mod seed_import_laws;
pub mod seeder;
pub mod seeder_laws;
pub mod tracker;
pub mod wire;
