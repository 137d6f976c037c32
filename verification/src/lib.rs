//! A custodial ledger and a vesting schedule, verified with Verus.
//!
//! - [`ledger`]: the store of balances, one per account, and the sum of them.
//! - [`engine`]: the store together with the total value locked, and the
//!   deposits and withdrawals that keep the two in step.
//! - [`treasury`]: the treasury in which every account acts on its own balance.
//! - [`pol_treasury`]: the treasury whose owner alone may withdraw a whole
//!   balance at once.
//! - [`pol_nft`]: the schedule of payments that a token carries, and who may
//!   mint and burn.
//!
//! Nothing here reads the caller, the block height or the value sent with a
//! call, sends value or emits a notice: an operation takes what it needs as
//! arguments and returns the notice, which also says what is to be sent.

pub mod account;
pub mod engine;
pub mod ledger;
pub mod pol_nft;
pub mod pol_treasury;
pub mod treasury;
