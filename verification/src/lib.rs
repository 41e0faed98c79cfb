//! In-process Solana execution support: accounts, instructions, the binary
//! wire format, message compilation, the account store and sysvars.
use vstd::prelude::*;

pub mod account;
pub mod error;
pub mod ids;
pub mod loader_keys;
pub mod message;
pub mod program_cache;
pub mod pubkey;
pub mod rent;
pub mod svm;
pub mod sysvars;
pub mod token;
pub mod user;
pub mod wire;

pub use crate::account::{Account, AccountMeta, Instruction};
pub use crate::ids::{SPL_ASSOCIATED_TOKEN_PROGRAM_ID, SPL_TOKEN_2022_PROGRAM_ID, SPL_TOKEN_PROGRAM_ID};
pub use crate::pubkey::Pubkey;

verus! {

} // verus!
