//! Core of a distributed, encrypted network store.
//!
//! Files come in over WebDAV (`davfs`), are cut into blocks, encrypted and
//! erasure coded (`crypto`); the shards go to the vault (`vault`) and to peers
//! (`router`), and the sealed directory (`directory`) remembers which groups of
//! shards make up a file. Peers find each other by handshakes in packets
//! (`network`, `receiver`) and talk in sessions (`session`).

pub mod bytes;
pub mod config;
pub mod crypto;
pub mod davfs;
pub mod directory;
pub mod lists;
pub mod network;
pub mod receiver;
pub mod router;
pub mod session;
pub mod table;
pub mod text;
pub mod truenas;
pub mod vault;
