//! The errors of the engine, as one flat taxonomy.
//!
//! A validation error rejects one message and leaves the group untouched. A
//! freshness error says that a message is too old or too new for the state
//! that receives it. An invariant violation means that the group instance
//! can no longer be trusted and has to be discarded.

use vstd::prelude::*;

verus! {

/// Why a message failed validation.
#[derive(Debug, Clone, Copy, PartialEq, Eq, Structural)]
pub enum ValidationReason {
    /// The signature over the framed content does not verify.
    BadSignature,
    /// The confirmation tag of a commit is not the expected one.
    BadConfirmationTag,
    /// The membership tag of a handshake message is not the expected one.
    BadMembershipTag,
    /// The proposals of a commit contradict each other or the tree.
    MalformedProposals,
    /// The path update of a commit does not fit the tree.
    InvalidPath,
    /// The sender is no member of the group.
    UnknownSender,
    /// A key package is malformed or its signature does not verify.
    InvalidKeyPackage,
    /// A ciphertext could not be opened.
    DecryptionFailed,
    /// The content of a message does not have the shape its type announces.
    MalformedMessage,
}

/// An error of the engine.
#[derive(Debug, Clone, Copy, PartialEq, Eq, Structural)]
pub enum EngineError {
    /// A message was rejected; the state is as before.
    Validation(ValidationReason),
    /// A path does not match the depth of its leaf or the keys it carries.
    InvalidPath,
    /// A commit would hold neither a proposal nor a path update.
    EmptyCommit,
    /// A message belongs to another epoch than the current one.
    WrongEpoch,
    /// A message belongs to another group.
    WrongGroup,
    /// The secrets of the epoch asked for are no longer retained.
    TooDistantInThePast,
    /// The generation asked for lies beyond the forward window.
    TooDistantInTheFuture,
    /// A leaf index lies outside the tree, or the leaf is blank.
    UnknownLeaf,
    /// The tree cannot grow any further.
    TreeFull,
    /// A payload is too long to be sealed.
    PayloadTooLong,
    /// The source of randomness failed.
    NoRandomness,
    /// The signing key is no key pair.
    BadSigningKey,
    /// A message key that was already used, or passed over, was asked for again.
    SecretReuse,
    /// A commit of this member is staged without the secrets kept for it.
    MissingPendingCommit,
    /// A staged commit was made for another epoch than the current one.
    StaleCommit,
    /// A commit removes this member from the group.
    Removed,
    /// The epoch counter cannot go any further.
    EpochExhausted,
    /// The sender's ratchet has handed out its last generation.
    RatchetExhausted,
}

/// The three classes of errors.
#[derive(Debug, Clone, Copy, PartialEq, Eq, Structural)]
pub enum ErrorClass {
    /// The offending input is rejected; the caller may retry or drop it.
    Validation,
    /// The input is too old or too new; the caller may drop or hold it.
    Freshness,
    /// The group instance must be discarded.
    Invariant,
}

impl EngineError {
    /// The class of this error.
    pub open spec fn spec_class(self) -> ErrorClass {
        match self {
            EngineError::TooDistantInThePast
            | EngineError::TooDistantInTheFuture
            | EngineError::WrongEpoch => ErrorClass::Freshness,
            EngineError::SecretReuse
            | EngineError::MissingPendingCommit
            | EngineError::StaleCommit
            | EngineError::Removed
            | EngineError::EpochExhausted => ErrorClass::Invariant,
            _ => ErrorClass::Validation,
        }
    }

    /// The class of this error.
    pub fn class(&self) -> (c: ErrorClass)
        ensures
            c == self.spec_class(),
    {
        match self {
            EngineError::TooDistantInThePast
            | EngineError::TooDistantInTheFuture
            | EngineError::WrongEpoch => ErrorClass::Freshness,
            EngineError::SecretReuse
            | EngineError::MissingPendingCommit
            | EngineError::StaleCommit
            | EngineError::Removed
            | EngineError::EpochExhausted => ErrorClass::Invariant,
            _ => ErrorClass::Validation,
        }
    }

    /// Whether the group instance has to be discarded after this error.
    pub fn is_fatal(&self) -> (fatal: bool)
        ensures
            fatal == (self.spec_class() == ErrorClass::Invariant),
    {
        match self.class() {
            ErrorClass::Invariant => true,
            _ => false,
        }
    }
}

} // verus!
