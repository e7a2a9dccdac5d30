//! Decision logic of a chain monitor that reports newly deployed ERC20
//! tokens.
//!
//! The monitor watches the head of a chain. For each new block it looks
//! through the block's log entries for a transaction that creates a
//! contract, asks that contract for its name and its total supply, and
//! reports a token record where both are answered.
//!
//! The library holds the decisions and leaves the talking to its caller:
//!
//! - [`tracker`]: which block numbers are new;
//! - [`filter`]: which log entries of a block are asked for;
//! - [`chain`]: the values that the node hands over;
//! - [`monitor`]: the state machine that turns each answer into the next
//!   request;
//! - [`outcome`]: what the scan of a block comes to, and the proof that the
//!   state machine arrives at it;
//! - [`record`]: the token record, its text, and the reading of that text;
//! - [`decimal`], [`text`], [`uint`], [`ident`]: supplies scaled by 10^18,
//!   hexadecimal and decimal text, 256-bit integers, hashes and addresses.

pub mod chain;
pub mod decimal;
pub mod filter;
pub mod ident;
pub mod monitor;
pub mod outcome;
pub mod record;
pub mod text;
pub mod tracker;
pub mod uint;
