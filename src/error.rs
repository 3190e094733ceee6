use vstd::prelude::*;

verus! {

/// The ways in which an identity operation can fail.
#[derive(Clone, Copy, Debug, PartialEq, Eq, Structural)]
pub enum IdentityError {
    /// The bytes are not a well-formed encoded change history.
    DecodeError,
    /// A change is not linked to its predecessor or is not signed by the authorized key.
    InvalidChange,
    /// The identifier derived from the history differs from the expected one.
    IdentifierMismatch,
    /// The vault failed to generate, export or sign with a key.
    VaultError,
    /// A required repository lookup found nothing.
    NotFound,
    /// An update would fork or shorten the stored history.
    ConflictingHistory,
    /// The text is not the display form of an identifier.
    ParseError,
    /// The vault holds no secret for the currently authorized key.
    KeyNotFound,
}

} // verus!
