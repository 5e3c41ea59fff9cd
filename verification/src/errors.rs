use vstd::prelude::*;

verus! {

/// The closed error taxonomy of the credential store.
///
/// Every fallible operation of the library reports one of these kinds, so
/// callers can branch on what went wrong instead of inspecting strings.
#[derive(Clone, Copy, Debug, PartialEq, Eq, Structural)]
pub enum StoreError {
    /// An entry with the exact same identifier already exists.
    DuplicateIdentifier,
    /// No entry matches the identifier, even case-insensitively.
    NotFound,
    /// The integrity tag did not verify: wrong master password or
    /// tampered ciphertext.
    Authentication,
    /// The key-derivation primitive rejected its inputs.
    KeyDerivation,
    /// Persisted content is malformed (bad base64, wrong salt or nonce
    /// length, inconsistent record, duplicate identifier on disk).
    Persistence,
    /// The two prompts for a new master password disagreed.
    PasswordConfirmationMismatch,
}

} // verus!
