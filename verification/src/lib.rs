//! A verified reader for the MMDB binary database format: a metadata
//! locator, a self-describing value decoder, and a binary-trie walker
//! that together answer IP-address lookups, plus the pure parts of a
//! minimal DNS resolver.
pub mod bytes;
pub mod decode;
pub mod dns;
pub mod download;
pub mod error;
pub mod metadata;
pub mod mmdb;
pub mod progress;
pub mod value;
