//! Core data model of the auction engine: identities, auction and bid
//! records, settlement transfers, and the admission errors.

use vstd::prelude::*;

verus! {

/// Default fee rate, in promille of the winning bid, for newly started
/// auctions while the operator has not chosen another rate.
pub const OWNER_MARGIN_DEFAULT: u64 = 50;

/// Smallest fee rate the operator may set, in promille.
pub const OWNER_MARGIN_MIN: u64 = 5;

/// Largest fee rate the operator may set, in promille.
pub const OWNER_MARGIN_MAX: u64 = 100;

/// Duration, in minutes, given to an auction started with duration zero.
pub const DURATION_DEFAULT: u32 = 60;

/// Floor on the fee taken at settlement, and on the deposit a creator is
/// expected to attach to cover that fee.
pub const MINIMUM_AUCTION_FEE: u64 = 1;

/// An authenticated caller. Callers arrive already authenticated, so an
/// identity is nothing but an opaque number.
#[derive(Clone, Copy, PartialEq, Eq, Structural, Debug, Hash)]
pub struct AgentId(pub u64);

/// The asset a single auction sells; doubles as the auction's key.
#[derive(Clone, Copy, PartialEq, Eq, Structural, Debug, Hash)]
pub struct TokenId(pub u64);

/// The standing of one bidder in one auction.
#[derive(Clone, Copy, PartialEq, Eq, Structural, Debug)]
pub struct Bid {
    /// Cumulative total escrowed by this bidder across all their calls on
    /// this auction; raises accumulate rather than replace.
    pub amount: u64,
    /// Position in the auction's bidder-arrival order; assigned at the
    /// bidder's first bid and never reused.
    pub index: u32,
    /// Time of the most recent bid from this bidder.
    pub timestamp: u64,
}

/// The parameters and current standing of one open auction.
#[derive(Clone, Debug)]
pub struct Auction {
    /// Party that started the auction; immutable.
    pub creator: AgentId,
    /// Funds pre-paid by the creator to cover the settlement fee; returned
    /// at settlement.
    pub deposit: u64,
    /// Free-form text; immutable.
    pub description: String,
    /// Minutes from start until the auction may be finalized; immutable.
    pub duration: u32,
    /// The current winning cumulative amount, `0` before any bid.
    pub highest_bid: u64,
    /// The current winning identity, `None` before any bid.
    pub highest_bidder: Option<AgentId>,
    /// Floor a first bid must meet; immutable.
    pub minimum_bid: u64,
    /// Quantity of the sale token escrowed by the creator; immutable and
    /// positive.
    pub num_tokens: u64,
    /// Fee rate in promille, copied from the engine's rate when the auction
    /// was started so later rate changes do not touch it.
    pub owner_margin: u64,
    /// The asset on sale, and the auction's key.
    pub token: TokenId,
    /// Timestamp at creation, kept for informational queries.
    pub when_started: u64,
}

/// Why a call was rejected. Every rejection happens before any state
/// mutation, so a rejected call leaves the engine exactly as it was.
#[derive(Clone, Copy, PartialEq, Eq, Structural, Debug)]
pub enum AuctionError {
    /// `start_auction` with zero tokens on sale.
    InvalidSale,
    /// `start_auction` for a token that already has an open auction.
    AuctionAlreadyOpen,
    /// `place_bid` for a token with no open auction.
    NoSuchAuction,
    /// `place_bid` with a zero amount.
    ZeroBid,
    /// A first bid below the auction's minimum; the attached funds go back
    /// to the sender.
    BidTooLow,
}

/// One funds movement the host ledger must perform.
#[derive(Clone, Copy, PartialEq, Eq, Structural, Debug)]
pub struct FundsTransfer {
    pub to: AgentId,
    pub amount: u64,
}

/// One sale-token movement the host ledger must perform.
#[derive(Clone, Copy, PartialEq, Eq, Structural, Debug)]
pub struct TokenTransfer {
    pub to: AgentId,
    pub token: TokenId,
    pub amount: u64,
}

/// Everything one finalization asks of the ledger. The host must apply the
/// whole settlement and the engine's state change as one transaction.
#[derive(Clone, Debug)]
pub struct Settlement {
    pub funds: Vec<FundsTransfer>,
    pub tokens: Vec<TokenTransfer>,
}

/// Sum of the cumulative amounts of a sequence of bids.
pub open spec fn sum_amounts(bids: Seq<Bid>) -> int
    decreases bids.len(),
{
    if bids.len() == 0 {
        0
    } else {
        sum_amounts(bids.drop_last()) + bids.last().amount
    }
}

/// Appending a bid adds its amount to the sum.
pub proof fn lemma_sum_amounts_push(s: Seq<Bid>, b: Bid)
    ensures
        sum_amounts(s.push(b)) == sum_amounts(s) + b.amount,
{
    assert(s.push(b).drop_last() =~= s);
}

/// Replacing one bid shifts the sum by the difference of the amounts.
pub proof fn lemma_sum_amounts_update(s: Seq<Bid>, i: int, b: Bid)
    requires
        0 <= i < s.len(),
    ensures
        sum_amounts(s.update(i, b)) == sum_amounts(s) - s[i].amount + b.amount,
    decreases s.len(),
{
    if i == s.len() - 1 {
        assert(s.update(i, b).drop_last() =~= s.drop_last());
    } else {
        assert(s.update(i, b).drop_last() =~= s.drop_last().update(i, b));
        lemma_sum_amounts_update(s.drop_last(), i, b);
    }
}

/// A sum of nonnegative amounts is nonnegative.
pub proof fn lemma_sum_amounts_nonneg(s: Seq<Bid>)
    requires
        forall|i: int| 0 <= i < s.len() ==> s[i].amount >= 0,
    ensures
        sum_amounts(s) >= 0,
    decreases s.len(),
{
    if s.len() > 0 {
        lemma_sum_amounts_nonneg(s.drop_last());
    }
}

/// Each bid's amount is bounded by the sum of them all.
pub proof fn lemma_sum_amounts_elem(s: Seq<Bid>, i: int)
    requires
        0 <= i < s.len(),
    ensures
        s[i].amount <= sum_amounts(s),
    decreases s.len(),
{
    if i == s.len() - 1 {
        lemma_sum_amounts_nonneg(s.drop_last());
    } else {
        lemma_sum_amounts_elem(s.drop_last(), i);
    }
}

/// Sum of the amounts of a sequence of funds transfers.
pub open spec fn sum_funds(ts: Seq<FundsTransfer>) -> int
    decreases ts.len(),
{
    if ts.len() == 0 {
        0
    } else {
        sum_funds(ts.drop_last()) + ts.last().amount
    }
}

/// Appending a transfer adds its amount to the sum.
pub proof fn lemma_sum_funds_push(s: Seq<FundsTransfer>, t: FundsTransfer)
    ensures
        sum_funds(s.push(t)) == sum_funds(s) + t.amount,
{
    assert(s.push(t).drop_last() =~= s);
}

/// Removing one transfer takes exactly its amount out of the sum.
pub proof fn lemma_sum_funds_remove(s: Seq<FundsTransfer>, i: int)
    requires
        0 <= i < s.len(),
    ensures
        sum_funds(s.remove(i)) == sum_funds(s) - s[i].amount,
    decreases s.len(),
{
    if i == s.len() - 1 {
        assert(s.remove(i) =~= s.drop_last());
    } else {
        assert(s.remove(i).drop_last() =~= s.drop_last().remove(i));
        lemma_sum_funds_remove(s.drop_last(), i);
    }
}

/// Summing transfers concatenated is summing them apart.
pub proof fn lemma_sum_funds_concat(a: Seq<FundsTransfer>, b: Seq<FundsTransfer>)
    ensures
        sum_funds(a + b) == sum_funds(a) + sum_funds(b),
    decreases b.len(),
{
    if b.len() == 0 {
        assert(a + b =~= a);
    } else {
        assert((a + b).drop_last() =~= a + b.drop_last());
        lemma_sum_funds_concat(a, b.drop_last());
    }
}

/// Transfers that copy the bids' amounts one for one sum to the same total.
pub proof fn lemma_sum_funds_matches(s: Seq<FundsTransfer>, bids: Seq<Bid>)
    requires
        s.len() == bids.len(),
        forall|i: int| 0 <= i < s.len() ==> s[i].amount == bids[i].amount,
    ensures
        sum_funds(s) == sum_amounts(bids),
    decreases s.len(),
{
    if s.len() > 0 {
        lemma_sum_funds_matches(s.drop_last(), bids.drop_last());
    }
}

/// Sum of the amounts of a sequence of token transfers.
pub open spec fn sum_tokens(ts: Seq<TokenTransfer>) -> int
    decreases ts.len(),
{
    if ts.len() == 0 {
        0
    } else {
        sum_tokens(ts.drop_last()) + ts.last().amount
    }
}

} // verus!
