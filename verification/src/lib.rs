//! A local, passphrase-protected vault of time-based one-time-password (TOTP)
//! generator entries.
//!
//! The crate is organised around these pieces:
//! - [`errors`]: the error taxonomy shared by every vault operation;
//! - [`otp`]: derivation of the current six-digit code for one entry;
//! - [`entry`]: a single generator entry and its Base32-encoded secret;
//! - [`cipher`]: passphrase-based encryption of the serialized vault;
//! - [`schema`] and [`parsing`]: the canonical text form of the vault and
//!   its parser, proved to round-trip;
//! - [`vault`] and [`registry`]: the versioned database schema and the
//!   in-memory working set with its create/delete/rename operations.
//!
//! All file input and output stays with the caller: the vault is loaded from
//! and saved to plain byte blobs, so every rule enforced here is verified.

pub mod cipher;
pub mod entry;
pub mod errors;
pub mod otp;
pub mod parsing;
pub mod registry;
pub mod schema;
pub mod vault;

pub use entry::GenApp;
pub use errors::VaultError;
pub use otp::{code_at, code_now};
pub use registry::RusTOTPony;
pub use vault::{DatabaseContentSchema, JsonDatabase, JsonDatabaseSchema, DATABASE_VERSION};
