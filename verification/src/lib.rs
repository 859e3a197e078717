//! Verified core of a small password vault: the vault file is the
//! AES-256 (block by block) encryption of a marker followed by the
//! serialised database, and the database keeps folders and password
//! entries addressed by slash-separated paths.

pub mod padding;
pub mod blocks;
pub mod cipher;
pub mod vault;
pub mod names;
pub mod db;
pub mod browse;
pub mod generator;
