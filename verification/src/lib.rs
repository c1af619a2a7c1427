//! Peer-to-peer distribution of GGUF model files: the rules of the tracker, of
//! the peers that seed and download files, and of the command line client.

pub mod clock;
pub mod dfget;
pub mod gguf;
pub mod p2p;
pub mod paths;
pub mod text;
pub mod text_laws;
pub mod tracker;
