//! The reasons for which an operation is refused.

use vstd::prelude::*;

verus! {

/// Why a call was refused. A refused call changes nothing.
#[derive(Clone, Copy, Debug, PartialEq, Eq, Structural)]
pub enum Error {
    /// The listing data is longer than the registry accepts.
    InputTooLarge,
    /// No listing, challenge, poll, vote or admin is filed under the key.
    NotFound,
    /// A listing is already filed under the hash of the data.
    AlreadyExists,
    /// The token has been minted before.
    AlreadyInitialized,
    /// The caller is not the owner, or not an admin.
    Unauthorized,
    /// The listing has an open challenge.
    AlreadyChallenged,
    /// The owner of a listing challenged it.
    SelfChallenge,
    /// The deposit is below the required stake.
    InsufficientDeposit,
    /// The account's free balance does not cover the amount.
    InsufficientBalance,
    /// No allowance covers the amount.
    InsufficientAllowance,
    /// The account holds no balance entry.
    UnknownAccount,
    /// The apply or commit window has passed.
    WindowClosed,
    /// The apply or commit window is still open.
    WindowNotYetClosed,
    /// A sum or product does not fit, or a division has a zero divisor.
    ArithmeticOverflow,
    /// A difference would be negative.
    ArithmeticUnderflow,
    /// The challenge has been resolved.
    AlreadyResolved,
    /// The challenge has not been resolved.
    NotResolved,
    /// The reward for the vote has been claimed.
    AlreadyClaimed,
    /// A registry parameter has not been set.
    ConfigurationMissing,
}

impl Error {
    /// The refusal in words.
    pub open spec fn text(self) -> Seq<char> {
        match self {
            Error::InputTooLarge => "listing data cannot be more than 256 bytes"@,
            Error::NotFound => "Not found."@,
            Error::AlreadyExists => "Listing already exists"@,
            Error::AlreadyInitialized => "Token already initialized."@,
            Error::Unauthorized => "Access denied."@,
            Error::AlreadyChallenged => "Listing is already challenged."@,
            Error::SelfChallenge => "You cannot challenge your own listing."@,
            Error::InsufficientDeposit => "deposit should be more than min_deposit"@,
            Error::InsufficientBalance => "Not enough balance."@,
            Error::InsufficientAllowance => "Not enough allowance."@,
            Error::UnknownAccount => "Account does not own this token"@,
            Error::WindowClosed => "Stage length has passed."@,
            Error::WindowNotYetClosed => "Stage length has not passed."@,
            Error::ArithmeticOverflow => "Arithmetic overflow."@,
            Error::ArithmeticUnderflow => "Arithmetic underflow."@,
            Error::AlreadyResolved => "Challenge is already resolved."@,
            Error::NotResolved => "Challenge is not resolved."@,
            Error::AlreadyClaimed => "Vote reward has already been claimed."@,
            Error::ConfigurationMissing => "Parameter not set."@,
        }
    }

    /// The refusal in words.
    pub fn message(&self) -> (words: &'static str)
        ensures
            words@ == self.text(),
    {
        match self {
            Error::InputTooLarge => "listing data cannot be more than 256 bytes",
            Error::NotFound => "Not found.",
            Error::AlreadyExists => "Listing already exists",
            Error::AlreadyInitialized => "Token already initialized.",
            Error::Unauthorized => "Access denied.",
            Error::AlreadyChallenged => "Listing is already challenged.",
            Error::SelfChallenge => "You cannot challenge your own listing.",
            Error::InsufficientDeposit => "deposit should be more than min_deposit",
            Error::InsufficientBalance => "Not enough balance.",
            Error::InsufficientAllowance => "Not enough allowance.",
            Error::UnknownAccount => "Account does not own this token",
            Error::WindowClosed => "Stage length has passed.",
            Error::WindowNotYetClosed => "Stage length has not passed.",
            Error::ArithmeticOverflow => "Arithmetic overflow.",
            Error::ArithmeticUnderflow => "Arithmetic underflow.",
            Error::AlreadyResolved => "Challenge is already resolved.",
            Error::NotResolved => "Challenge is not resolved.",
            Error::AlreadyClaimed => "Vote reward has already been claimed.",
            Error::ConfigurationMissing => "Parameter not set.",
        }
    }
}

} // verus!
