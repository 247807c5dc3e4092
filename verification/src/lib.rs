//! Settlement core of a sealed-duration auction: a creator deposits a
//! quantity of fungible tokens and opens a bidding window; bidders escrow
//! cumulative bids; at window close the highest bidder wins the tokens,
//! everyone else is refunded in full, and a small fee goes to the operator.
//!
//! The engine here is a pure, serialized state machine: each entry point
//! validates, mutates the auction store, and hands the host the exact list
//! of ledger transfers to perform. Storage, scheduling and the ledger
//! itself are the host's; the engine's contracts pin down every admission
//! decision and every coin of every settlement.

pub mod codec;
pub mod engine;
pub mod ranking;
pub mod types;

pub use engine::AuctionState;
pub use engine::FairAuction;
pub use types::AgentId;
pub use types::Auction;
pub use types::AuctionError;
pub use types::Bid;
pub use types::FundsTransfer;
pub use types::Settlement;
pub use types::TokenId;
pub use types::TokenTransfer;
