//! A staking pool: user deposits locked for a fixed period in a shared pool,
//! with time-locked withdrawal and fee deduction.
//!
//! The core is the stake ledger: per-identity books of stake records, a
//! pool-wide aggregate kept in lockstep with every mutation, and deterministic
//! derivation of a unique sub-account per stake.

use vstd::prelude::*;

mod errors;
mod ident;
mod pool;

pub use errors::StakeError;
pub use ident::account_id_spec;
pub use ident::build_derivation_message;
pub use ident::derivation_message;
pub use ident::derive_subaccount;
pub use ident::domain_tag;
pub use ident::get_account_identifier;
pub use ident::hex_digit;
pub use ident::hex_of;
pub use ident::lemma_derivation_messages_distinct;
pub use ident::sha256_of;
pub use ident::u64_be_bytes;
pub use ident::u64_to_be_bytes;
pub use pool::book_index;
pub use pool::book_wf;
pub use pool::count_stakes;
pub use pool::deposit_effect;
pub use pool::has_book;
pub use pool::keys_unique;
pub use pool::lemma_book_total_is_sum;
pub use pool::lemma_pool_total_is_sum;
pub use pool::new_record_matches;
pub use pool::record_wf;
pub use pool::sum_amounts;
pub use pool::sum_books;
pub use pool::valid_lock_period;
pub use pool::withdraw_effect;
pub use pool::DepositReceipt;
pub use pool::DepositRequest;
pub use pool::StakeInfo;
pub use pool::StakingPool;
pub use pool::UserStakes;
pub use pool::WithdrawReceipt;
pub use pool::WithdrawRequest;

verus! {

/// Minimum fee, in e8s, that a deposit must cover and a withdrawal is charged.
pub const ICP_FEE: u64 = 10_000;

} // verus!
