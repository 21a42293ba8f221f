//! The error taxonomy of the vault.
//!
//! Every failure of a vault operation is reported as a value of
//! [`VaultError`]; no operation of this crate panics.

use vstd::prelude::*;

verus! {

/// Why a vault operation failed.
///
/// The variants are disjoint so that a caller can render a distinct message
/// for each: a bad secret on entry creation, a name clash, a missing entry,
/// an empty registry on listing, a blob that would not decrypt (almost always
/// a wrong passphrase), and a blob that decrypted but did not hold a valid
/// vault payload.
#[derive(Clone, Copy, Debug, PartialEq, Eq, Structural)]
pub enum VaultError {
    /// The secret handed to entry creation is not valid Base32.
    InvalidSecret,
    /// An entry with the requested name already exists.
    DuplicateName,
    /// No entry with the requested name exists.
    NotFound,
    /// A listing was requested but the registry holds no entries.
    EmptyVault,
    /// The stored blob could not be decrypted with the derived key.
    Decryption,
    /// The blob decrypted, but the payload is not a valid vault.
    Corruption,
}

impl VaultError {
    /// A fixed, user-facing description of the failure.
    pub fn message(&self) -> (r: String)
        ensures
            self is InvalidSecret ==> r@ == "Couldn't decode secret key"@,
            self is DuplicateName ==> r@ == "An application with this name already exists"@,
            self is NotFound ==> r@ == "Application wasn't found"@,
            self is EmptyVault ==> r@ == "There are no applications"@,
            self is Decryption ==> r@ == "Couldn't decrypt database: wrong passphrase or damaged file"@,
            self is Corruption ==> r@ == "Couldn't parse database contents"@,
    {
        match self {
            VaultError::InvalidSecret => String::from_str("Couldn't decode secret key"),
            VaultError::DuplicateName => String::from_str("An application with this name already exists"),
            VaultError::NotFound => String::from_str("Application wasn't found"),
            VaultError::EmptyVault => String::from_str("There are no applications"),
            VaultError::Decryption => String::from_str("Couldn't decrypt database: wrong passphrase or damaged file"),
            VaultError::Corruption => String::from_str("Couldn't parse database contents"),
        }
    }
}

} // verus!
