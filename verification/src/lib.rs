//! Passphrase recovery engine for an Argon2id / AES-256-GCM protected vault.
//!
//! The library expands a base answer profile and per-slot dictionaries into a
//! candidate pool, assembles each candidate into a canonical passphrase via a
//! fixed slot permutation, derives a key and attempts authenticated
//! decryption, and searches the pool for the first candidate that opens the
//! vault.

pub mod config;
pub mod crypto;
pub mod generator;
pub mod orderer;
pub mod search;
