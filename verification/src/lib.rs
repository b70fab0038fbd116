//! A token-curated registry: a token ledger with escrow, and the registry
//! state machine (propose, challenge, vote, resolve, claim) that stakes
//! tokens on listings.

pub mod error;
pub mod hashing;
pub mod laws;
pub mod sum;
pub mod table;
pub mod token;
pub mod tcr;
