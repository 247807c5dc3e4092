//! The auction lifecycle and settlement engine: a serialized state machine
//! over an in-memory auction store. Each entry point validates before it
//! mutates, and returns the exact ledger work the host must perform.

use vstd::prelude::*;

use crate::types::AgentId;
use crate::types::Auction;
use crate::types::AuctionError;
use crate::types::Bid;
use crate::types::FundsTransfer;
use crate::types::Settlement;
use crate::types::TokenId;
use crate::types::TokenTransfer;
use crate::types::lemma_sum_amounts_elem;
use crate::types::lemma_sum_funds_concat;
use crate::types::lemma_sum_funds_matches;
use crate::types::lemma_sum_funds_remove;
use crate::types::lemma_sum_amounts_push;
use crate::types::lemma_sum_amounts_update;
use crate::types::sum_amounts;
use crate::types::sum_funds;
use crate::types::sum_tokens;
use crate::types::DURATION_DEFAULT;
use crate::types::MINIMUM_AUCTION_FEE;
use crate::types::OWNER_MARGIN_DEFAULT;
use crate::types::OWNER_MARGIN_MAX;
use crate::types::OWNER_MARGIN_MIN;

verus! {

/// The whole stored state of one open auction: its record, its bidders in
/// arrival order, their bids index-aligned with the bidder list, and the
/// funds the ledger holds in escrow for those bids.
#[derive(Clone, Debug)]
pub struct AuctionState {
    pub auction: Auction,
    /// Bidder identities, append-only, in arrival order.
    pub bidders: Vec<AgentId>,
    /// One bid per bidder, `bids[i]` belonging to `bidders[i]`.
    pub bids: Vec<Bid>,
    /// Funds escrowed with the ledger for this auction's bids; always the
    /// sum of the cumulative bid amounts.
    pub escrowed_funds: u64,
}

impl AuctionState {
    /// Does `bidder` already own a bid here?
    pub open spec fn has_bid(self, bidder: AgentId) -> bool {
        exists|i: int| 0 <= i < self.bidders@.len() && self.bidders@[i] == bidder
    }

    /// Arrival index of `bidder`, meaningful only when `has_bid`.
    pub open spec fn index_of(self, bidder: AgentId) -> int {
        choose|i: int| 0 <= i < self.bidders@.len() && self.bidders@[i] == bidder
    }

    /// Cumulative amount escrowed by `bidder`, zero for a stranger.
    pub open spec fn cumulative_of(self, bidder: AgentId) -> int {
        if self.has_bid(bidder) {
            self.bids@[self.index_of(bidder)].amount as int
        } else {
            0
        }
    }

    /// Well-formedness: the invariant every reachable auction state keeps.
    ///
    /// Besides structural alignment of the two lists it states the two
    /// stated data-model invariants: the highest bid is the bid of the
    /// highest bidder and a maximum over all bids, and the escrowed funds
    /// equal the sum of all cumulative bid amounts.
    pub open spec fn wf(self) -> bool {
        &&& self.bids@.len() == self.bidders@.len()
        &&& self.bidders@.len() <= u32::MAX
        &&& (forall|i: int, j: int|
            0 <= i < j < self.bidders@.len() ==> self.bidders@[i] != self.bidders@[j])
        &&& (forall|i: int| 0 <= i < self.bids@.len() ==> self.bids@[i].index == i)
        &&& (forall|i: int| 0 <= i < self.bids@.len() ==> self.bids@[i].amount > 0)
        &&& self.auction.num_tokens > 0
        &&& self.auction.duration > 0
        &&& OWNER_MARGIN_MIN <= self.auction.owner_margin <= OWNER_MARGIN_MAX
        &&& self.escrowed_funds as int == sum_amounts(self.bids@)
        &&& if self.bidders@.len() == 0 {
            self.auction.highest_bid == 0 && self.auction.highest_bidder is None
        } else {
            &&& self.auction.highest_bid > 0
            &&& self.auction.highest_bidder is Some
            &&& self.has_bid(self.auction.highest_bidder->0)
            &&& self.cumulative_of(self.auction.highest_bidder->0)
                == self.auction.highest_bid as int
            &&& (forall|i: int|
                0 <= i < self.bids@.len()
                    ==> self.bids@[i].amount <= self.auction.highest_bid)
        }
    }

    /// Index of the winning bidder, meaningful only when there are bids.
    pub open spec fn winner_idx(self) -> int {
        self.index_of(self.auction.highest_bidder->0)
    }

    /// With distinct bidders, the bidder at position `i` is found exactly
    /// there.
    pub proof fn lemma_bidder_at(self, i: int)
        requires
            forall|p: int, q: int|
                0 <= p < q < self.bidders@.len() ==> self.bidders@[p] != self.bidders@[q],
            0 <= i < self.bidders@.len(),
        ensures
            self.has_bid(self.bidders@[i]),
            self.index_of(self.bidders@[i]) == i,
    {
        let b = self.bidders@[i];
        assert(self.has_bid(b));
        let c = self.index_of(b);
        if c < i {
            assert(self.bidders@[c] != self.bidders@[i]);
        } else if c > i {
            assert(self.bidders@[i] != self.bidders@[c]);
        }
    }
}

/// Position of `bidder` in a duplicate-free bidder list.
fn find_bidder(bidders: &Vec<AgentId>, bidder: AgentId) -> (r: Option<usize>)
    ensures
        match r {
            Some(i) => i < bidders@.len() && bidders@[i as int] == bidder,
            None => forall|k: int| 0 <= k < bidders@.len() ==> bidders@[k] != bidder,
        },
{
    let n = bidders.len();
    let mut k: usize = 0;
    while k < n
        invariant
            n == bidders@.len(),
            k <= n,
            forall|j: int| 0 <= j < k ==> bidders@[j] != bidder,
        decreases n - k,
    {
        if bidders[k] == bidder {
            return Some(k);
        }
        k += 1;
    }
    None
}

/// The engine: the process-wide fee configuration, the operator account
/// the fee is paid to, and the store of open auctions keyed by token.
#[derive(Clone, Debug)]
pub struct FairAuction {
    /// Account credited with settlement fees.
    pub operator: AgentId,
    /// Fee rate in promille for auctions started from now on; clamped to
    /// `OWNER_MARGIN_MIN ..= OWNER_MARGIN_MAX`.
    pub owner_margin: u64,
    /// Open auctions, at most one per token.
    pub auctions: Vec<AuctionState>,
}

impl FairAuction {
    /// Is there an open auction for `token`?
    pub open spec fn has_open(self, token: TokenId) -> bool {
        exists|i: int|
            0 <= i < self.auctions@.len() && self.auctions@[i].auction.token == token
    }

    /// Store position of `token`'s auction, meaningful only when open.
    pub open spec fn open_idx(self, token: TokenId) -> int {
        choose|i: int|
            0 <= i < self.auctions@.len() && self.auctions@[i].auction.token == token
    }

    /// The stored state of `token`'s auction, meaningful only when open.
    pub open spec fn state_of(self, token: TokenId) -> AuctionState {
        self.auctions@[self.open_idx(token)]
    }

    /// Well-formedness: tokens are unique keys, every stored auction keeps
    /// its own invariant under its own key, and the configured rate is in
    /// range.
    pub open spec fn wf(self) -> bool {
        &&& OWNER_MARGIN_MIN <= self.owner_margin <= OWNER_MARGIN_MAX
        &&& (forall|i: int, j: int|
            0 <= i < j < self.auctions@.len()
                ==> self.auctions@[i].auction.token != self.auctions@[j].auction.token)
        &&& (forall|i: int| 0 <= i < self.auctions@.len() ==> self.auctions@[i].wf())
        &&& (forall|i: int|
            0 <= i < self.auctions@.len()
                ==> self.auctions@[i].auction.owner_margin <= OWNER_MARGIN_MAX)
    }

    /// A fresh engine: no auctions, the default fee rate.
    pub fn new(operator: AgentId) -> (r: FairAuction)
        ensures
            r.wf(),
            r.operator == operator,
            r.owner_margin == OWNER_MARGIN_DEFAULT,
            r.auctions@.len() == 0,
    {
        FairAuction { operator, owner_margin: OWNER_MARGIN_DEFAULT, auctions: Vec::new() }
    }

    /// Updates the process-wide default fee rate for auctions started after
    /// this call; open auctions keep the rate frozen at their creation.
    /// An out-of-range rate is clamped into
    /// `OWNER_MARGIN_MIN ..= OWNER_MARGIN_MAX`: that clamping, rather than a
    /// rejection, is this engine's documented policy.
    pub fn set_owner_margin(&mut self, rate: u64)
        requires
            old(self).wf(),
        ensures
            final(self).wf(),
            final(self).owner_margin == clamp_margin(rate),
            final(self).operator == old(self).operator,
            final(self).auctions == old(self).auctions,
    {
        if rate < OWNER_MARGIN_MIN {
            self.owner_margin = OWNER_MARGIN_MIN;
        } else if rate > OWNER_MARGIN_MAX {
            self.owner_margin = OWNER_MARGIN_MAX;
        } else {
            self.owner_margin = rate;
        }
    }

    /// Store position of `token`'s auction, if any.
    fn find_auction(&self, token: TokenId) -> (r: Option<usize>)
        requires
            self.wf(),
        ensures
            match r {
                Some(i) => {
                    &&& self.has_open(token)
                    &&& self.open_idx(token) == i as int
                    &&& i < self.auctions@.len()
                },
                None => !self.has_open(token),
            },
    {
        let n = self.auctions.len();
        let mut k: usize = 0;
        while k < n
            invariant
                self.wf(),
                n == self.auctions@.len(),
                k <= n,
                forall|j: int| 0 <= j < k ==> self.auctions@[j].auction.token != token,
            decreases n - k,
        {
            if self.auctions[k].auction.token == token {
                proof {
                    assert(self.has_open(token));
                    let c = self.open_idx(token);
                    assert(self.auctions@[c].auction.token == token);
                    if c != k as int {
                        assert(self.auctions@[k as int].auction.token
                            != self.auctions@[c].auction.token);
                    }
                }
                return Some(k);
            }
            k += 1;
        }
        proof {
            if self.has_open(token) {
                let c = self.open_idx(token);
                assert(self.auctions@[c].auction.token == token);
            }
        }
        None
    }

    /// In a well-formed store the token at position `i` is found exactly
    /// there.
    proof fn lemma_idx(self, i: int)
        requires
            self.wf(),
            0 <= i < self.auctions@.len(),
        ensures
            self.has_open(self.auctions@[i].auction.token),
            self.open_idx(self.auctions@[i].auction.token) == i,
    {
        let t = self.auctions@[i].auction.token;
        assert(self.has_open(t));
        let c = self.open_idx(t);
        if c < i {
            assert(self.auctions@[c].auction.token != self.auctions@[i].auction.token);
        } else if c > i {
            assert(self.auctions@[i].auction.token != self.auctions@[c].auction.token);
        }
    }

    /// Opens an auction: `creator` puts `num_tokens` of `token` up for
    /// sale with bid floor `minimum_bid`, attaching `deposit` funds to
    /// cover the settlement fee. The host has already escrowed both and
    /// must schedule exactly one `finalize_auction` call for `token` no
    /// earlier than the duration from `now`.
    ///
    /// A zero `duration` is replaced by `DURATION_DEFAULT`. A deposit
    /// below the fee floor `fee_of(minimum_bid, rate)` is admitted rather
    /// than rejected, so the sale tokens are not stranded; the `Ok` value
    /// is `false` exactly then, and the host should surface a warning.
    pub fn start_auction(
        &mut self,
        token: TokenId,
        num_tokens: u64,
        minimum_bid: u64,
        duration: u32,
        description: String,
        deposit: u64,
        creator: AgentId,
        now: u64,
    ) -> (r: Result<bool, AuctionError>)
        requires
            old(self).wf(),
        ensures
            final(self).wf(),
            final(self).operator == old(self).operator,
            final(self).owner_margin == old(self).owner_margin,
            r == Err::<bool, AuctionError>(AuctionError::InvalidSale) <==> num_tokens == 0,
            r == Err::<bool, AuctionError>(AuctionError::AuctionAlreadyOpen)
                <==> (num_tokens > 0 && old(self).has_open(token)),
            r is Err ==> *final(self) == *old(self),
            num_tokens > 0 && !old(self).has_open(token) ==> {
                &&& r == Ok::<bool, AuctionError>(
                    deposit as int >= fee_of(minimum_bid, old(self).owner_margin),
                )
                &&& final(self).has_open(token)
                &&& final(self).state_of(token).auction == (Auction {
                    creator,
                    deposit,
                    description,
                    duration: if duration == 0 { DURATION_DEFAULT } else { duration },
                    highest_bid: 0,
                    highest_bidder: None,
                    minimum_bid,
                    num_tokens,
                    owner_margin: old(self).owner_margin,
                    token,
                    when_started: now,
                })
                &&& final(self).state_of(token).bidders@.len() == 0
                &&& final(self).state_of(token).bids@.len() == 0
                &&& final(self).state_of(token).escrowed_funds == 0
            },
            forall|t: TokenId|
                t != token ==> (final(self).has_open(t) <==> old(self).has_open(t)),
            forall|t: TokenId|
                t != token && old(self).has_open(t)
                    ==> final(self).state_of(t) == old(self).state_of(t),
    {
        if num_tokens == 0 {
            return Err(AuctionError::InvalidSale);
        }
        if self.find_auction(token).is_some() {
            return Err(AuctionError::AuctionAlreadyOpen);
        }
        let floor = fee_amount(minimum_bid, self.owner_margin);
        let deposit_covers_fee = deposit >= floor;
        let state = AuctionState {
            auction: Auction {
                creator,
                deposit,
                description,
                duration: if duration == 0 { DURATION_DEFAULT } else { duration },
                highest_bid: 0,
                highest_bidder: None,
                minimum_bid,
                num_tokens,
                owner_margin: self.owner_margin,
                token,
                when_started: now,
            },
            bidders: Vec::new(),
            bids: Vec::new(),
            escrowed_funds: 0,
        };
        let ghost pre = *self;
        let ghost new_state = state;
        self.auctions.push(state);
        proof {
            let n = pre.auctions@.len();
            assert(self.auctions@ == pre.auctions@.push(new_state));
            assert forall|i: int, j: int|
                0 <= i < j < self.auctions@.len() implies self.auctions@[i].auction.token
                != self.auctions@[j].auction.token by {
                if j == n && pre.auctions@[i].auction.token == token {
                    assert(pre.has_open(token));
                }
            }
            self.lemma_idx(n as int);
            assert forall|t: TokenId|
                t != token && pre.has_open(t) implies self.has_open(t) && self.state_of(t)
                == pre.state_of(t) by {
                let c = pre.open_idx(t);
                assert(self.auctions@[c].auction.token == t);
                self.lemma_idx(c);
            }
            assert forall|t: TokenId| t != token && self.has_open(t) implies pre.has_open(
                t,
            ) by {
                let c = self.open_idx(t);
                assert(self.auctions@[c].auction.token == t);
                assert(c != n as int);
                assert(pre.auctions@[c].auction.token == t);
            }
        }
        Ok(deposit_covers_fee)
    }

    /// Machine-limit guard for `place_bid`: the new escrow total must fit
    /// in the ledger's word and a fresh arrival index must fit in `u32`.
    pub open spec fn can_admit(self, token: TokenId, amount: u64) -> bool {
        self.has_open(token) ==> {
            &&& self.state_of(token).escrowed_funds + amount <= u64::MAX
            &&& self.state_of(token).bidders@.len() < u32::MAX
        }
    }

    /// Admits or rejects one bid of `amount` from `bidder` on `token`'s
    /// auction; the host has attached `amount` funds, which stay escrowed
    /// exactly when the call returns `Ok`.
    ///
    /// A first bid must meet the auction's minimum and appends the bidder
    /// to the arrival list; a raise always accumulates onto the bidder's
    /// prior total. The bidder takes the lead exactly when the new
    /// cumulative total strictly exceeds the standing highest bid: a tie
    /// never transfers leadership.
    pub fn place_bid(&mut self, token: TokenId, bidder: AgentId, amount: u64, now: u64) -> (r:
        Result<(), AuctionError>)
        requires
            old(self).wf(),
            old(self).can_admit(token, amount),
        ensures
            final(self).wf(),
            final(self).operator == old(self).operator,
            final(self).owner_margin == old(self).owner_margin,
            r == Err::<(), AuctionError>(AuctionError::NoSuchAuction)
                <==> !old(self).has_open(token),
            r == Err::<(), AuctionError>(AuctionError::ZeroBid)
                <==> (old(self).has_open(token) && amount == 0),
            r == Err::<(), AuctionError>(AuctionError::BidTooLow)
                <==> (old(self).has_open(token) && amount > 0
                    && !old(self).state_of(token).has_bid(bidder)
                    && amount < old(self).state_of(token).auction.minimum_bid),
            r is Ok <==> (old(self).has_open(token) && amount > 0 && (old(self).state_of(
                token,
            ).has_bid(bidder) || amount >= old(self).state_of(token).auction.minimum_bid)),
            r is Err ==> *final(self) == *old(self),
            r is Ok ==> final(self).has_open(token) && bid_transition(
                old(self).state_of(token),
                final(self).state_of(token),
                bidder,
                amount,
                now,
            ),
            forall|t: TokenId| final(self).has_open(t) <==> old(self).has_open(t),
            forall|t: TokenId|
                t != token && old(self).has_open(t)
                    ==> final(self).state_of(t) == old(self).state_of(t),
    {
        let idx = match self.find_auction(token) {
            None => {
                return Err(AuctionError::NoSuchAuction);
            },
            Some(i) => i,
        };
        if amount == 0 {
            return Err(AuctionError::ZeroBid);
        }
        proof {
            self.lemma_idx(idx as int);
            assert(self.auctions@[idx as int].wf());
        }
        let pos = find_bidder(&self.auctions[idx].bidders, bidder);
        let ghost pre = *self;
        let ghost st0 = self.auctions@[idx as int];
        match pos {
            None => {
                proof {
                    if st0.has_bid(bidder) {
                        let k = st0.index_of(bidder);
                        assert(st0.bidders@[k] == bidder);
                    }
                }
                if amount < self.auctions[idx].auction.minimum_bid {
                    return Err(AuctionError::BidTooLow);
                }
                let mut st = self.auctions.remove(idx);
                let n = st.bidders.len();
                st.bidders.push(bidder);
                st.bids.push(Bid { amount, index: n as u32, timestamp: now });
                st.escrowed_funds = st.escrowed_funds + amount;
                if amount > st.auction.highest_bid {
                    st.auction.highest_bid = amount;
                    st.auction.highest_bidder = Some(bidder);
                }
                let ghost stg = st;
                self.auctions.insert(idx, st);
                proof {
                    lemma_sum_amounts_push(
                        st0.bids@,
                        (Bid { amount, index: n as u32, timestamp: now }),
                    );
                    assert(self.auctions@ =~= pre.auctions@.update(idx as int, stg));
                    lemma_store_update(pre, *self, idx as int, token);
                    assert(stg.wf()) by {
                        assert forall|p: int, q: int|
                            0 <= p < q < stg.bidders@.len() implies stg.bidders@[p]
                            != stg.bidders@[q] by {
                            if q == n as int {
                                assert(st0.bidders@[p] != bidder);
                            }
                        }
                        stg.lemma_bidder_at(n as int);
                        if amount <= st0.auction.highest_bid {
                            assert(st0.bidders@.len() > 0);
                            let h = st0.auction.highest_bidder->0;
                            let k = st0.index_of(h);
                            assert(st0.bidders@[k] == h);
                            stg.lemma_bidder_at(k);
                        }
                    }
                    assert forall|i: int| 0 <= i < self.auctions@.len() implies
                        self.auctions@[i].wf() by {
                        if i != idx as int {
                            assert(self.auctions@[i] == pre.auctions@[i]);
                        }
                    }
                }
                Ok(())
            },
            Some(i) => {
                proof {
                    st0.lemma_bidder_at(i as int);
                    lemma_sum_amounts_elem(st0.bids@, i as int);
                }
                let mut st = self.auctions.remove(idx);
                let ob = st.bids[i];
                let new_amount = ob.amount + amount;
                let nb = Bid { amount: new_amount, index: ob.index, timestamp: now };
                let _replaced = st.bids.remove(i);
                st.bids.insert(i, nb);
                st.escrowed_funds = st.escrowed_funds + amount;
                if new_amount > st.auction.highest_bid {
                    st.auction.highest_bid = new_amount;
                    st.auction.highest_bidder = Some(bidder);
                }
                let ghost stg = st;
                self.auctions.insert(idx, st);
                proof {
                    assert(stg.bids@ =~= st0.bids@.update(i as int, nb));
                    lemma_sum_amounts_update(st0.bids@, i as int, nb);
                    assert(self.auctions@ =~= pre.auctions@.update(idx as int, stg));
                    lemma_store_update(pre, *self, idx as int, token);
                    assert(stg.wf()) by {
                        assert(st0.bidders@.len() > 0);
                        let h = st0.auction.highest_bidder->0;
                        let k = st0.index_of(h);
                        assert(st0.bidders@[k] == h);
                        stg.lemma_bidder_at(k);
                        stg.lemma_bidder_at(i as int);
                        if new_amount <= st0.auction.highest_bid {
                            assert(k != i as int);
                        }
                    }
                    assert forall|j: int| 0 <= j < self.auctions@.len() implies
                        self.auctions@[j].wf() by {
                        if j != idx as int {
                            assert(self.auctions@[j] == pre.auctions@[j]);
                        }
                    }
                }
                Ok(())
            },
        }
    }

    /// Settles and deletes `token`'s auction; meant to be driven by the
    /// host's one-shot scheduled callback, never by users.
    ///
    /// With no open auction for `token` — never started, or already
    /// finalized — this is a no-op that asks for no transfers, so a
    /// retried callback is harmless. Otherwise the returned settlement
    /// and the deletion form one transaction: the host must apply every
    /// transfer and commit the engine's new state together, or apply
    /// neither (keeping its pre-call copy of the engine) and retry later.
    ///
    /// With no bids, the creator gets the sale tokens and the whole
    /// deposit back. With bids, the winner gets the sale tokens; the
    /// creator gets the winning bid minus the fee, and the deposit back;
    /// the operator gets the fee; every other bidder is refunded their
    /// full cumulative amount. Either way the settlement pays out every
    /// escrowed coin exactly once.
    pub fn finalize_auction(&mut self, token: TokenId) -> (r: Settlement)
        requires
            old(self).wf(),
        ensures
            final(self).wf(),
            final(self).operator == old(self).operator,
            final(self).owner_margin == old(self).owner_margin,
            !old(self).has_open(token) ==> *final(self) == *old(self) && r.funds@.len() == 0
                && r.tokens@.len() == 0,
            old(self).has_open(token) ==> ({
                let st = old(self).state_of(token);
                &&& !final(self).has_open(token)
                &&& if st.bidders@.len() == 0 {
                    &&& r.tokens@ == seq![
                        (TokenTransfer {
                            to: st.auction.creator,
                            token,
                            amount: st.auction.num_tokens,
                        }),
                    ]
                    &&& r.funds@ == seq![
                        (FundsTransfer { to: st.auction.creator, amount: st.auction.deposit }),
                    ]
                } else {
                    let fee = fee_of(st.auction.highest_bid, st.auction.owner_margin);
                    &&& r.tokens@ == seq![
                        (TokenTransfer {
                            to: st.auction.highest_bidder->0,
                            token,
                            amount: st.auction.num_tokens,
                        }),
                    ]
                    &&& r.funds@ == seq![
                        (FundsTransfer {
                            to: st.auction.creator,
                            amount: (st.auction.highest_bid - fee) as u64,
                        }),
                        (FundsTransfer { to: old(self).operator, amount: fee as u64 }),
                        (FundsTransfer { to: st.auction.creator, amount: st.auction.deposit }),
                    ] + refund_list(st)
                }
            }),
            old(self).has_open(token) ==> sum_funds(r.funds@) == old(self).state_of(
                token,
            ).escrowed_funds + old(self).state_of(token).auction.deposit,
            old(self).has_open(token) ==> sum_tokens(r.tokens@) == old(self).state_of(
                token,
            ).auction.num_tokens,
            forall|t: TokenId|
                t != token ==> (final(self).has_open(t) <==> old(self).has_open(t)),
            forall|t: TokenId|
                t != token && old(self).has_open(t)
                    ==> final(self).state_of(t) == old(self).state_of(t),
    {
        let idx = match self.find_auction(token) {
            None => {
                return Settlement { funds: Vec::new(), tokens: Vec::new() };
            },
            Some(i) => i,
        };
        proof {
            self.lemma_idx(idx as int);
            assert(self.auctions@[idx as int].wf());
        }
        let ghost pre = *self;
        let st = self.auctions.remove(idx);
        let ghost stg = st;
        proof {
            lemma_store_remove(pre, *self, idx as int, token);
        }
        let mut funds: Vec<FundsTransfer> = Vec::new();
        let mut tokens: Vec<TokenTransfer> = Vec::new();
        match st.auction.highest_bidder {
            None => {
                tokens.push(
                    TokenTransfer { to: st.auction.creator, token, amount: st.auction.num_tokens },
                );
                funds.push(FundsTransfer { to: st.auction.creator, amount: st.auction.deposit });
                proof {
                    assert(stg.bidders@.len() == 0);
                    assert(tokens@.drop_last() =~= Seq::<TokenTransfer>::empty());
                    assert(funds@.drop_last() =~= Seq::<FundsTransfer>::empty());
                    assert(stg.bids@ =~= Seq::<Bid>::empty());
                    assert(sum_funds(Seq::<FundsTransfer>::empty()) == 0);
                    assert(sum_tokens(Seq::<TokenTransfer>::empty()) == 0);
                }
                Settlement { funds, tokens }
            },
            Some(winner) => {
                let fee = fee_amount(st.auction.highest_bid, st.auction.owner_margin);
                tokens.push(TokenTransfer { to: winner, token, amount: st.auction.num_tokens });
                funds.push(
                    FundsTransfer {
                        to: st.auction.creator,
                        amount: st.auction.highest_bid - fee,
                    },
                );
                funds.push(FundsTransfer { to: self.operator, amount: fee });
                funds.push(FundsTransfer { to: st.auction.creator, amount: st.auction.deposit });
                let ghost base = funds@;
                let ghost w = stg.winner_idx();
                proof {
                    assert(stg.bidders@[w] == winner);
                    assert(refund_prefix(stg, 0) =~= Seq::<FundsTransfer>::empty());
                    assert(funds@ =~= base + refund_prefix(stg, 0));
                }
                let n = st.bidders.len();
                let mut k: usize = 0;
                while k < n
                    invariant
                        stg == st,
                        stg.wf(),
                        0 <= w < n,
                        stg.bidders@[w] == winner,
                        stg.winner_idx() == w,
                        n == st.bidders@.len(),
                        k <= n,
                        funds@ == base + refund_prefix(stg, k as int),
                    decreases n - k,
                {
                    proof {
                        stg.lemma_bidder_at(k as int);
                    }
                    if st.bidders[k] != winner {
                        funds.push(
                            FundsTransfer { to: st.bidders[k], amount: st.bids[k].amount },
                        );
                        proof {
                            let kk = k as int;
                            if w < kk {
                                assert(refund_map(stg).take(kk + 1).remove(w)
                                    =~= refund_map(stg).take(kk).remove(w).push(
                                    refund_map(stg)[kk],
                                ));
                            } else {
                                assert(refund_map(stg).take(kk + 1) =~= refund_map(stg).take(
                                    kk,
                                ).push(refund_map(stg)[kk]));
                            }
                            assert(funds@ =~= base + refund_prefix(stg, kk + 1));
                        }
                    } else {
                        proof {
                            let kk = k as int;
                            assert(kk == w);
                            assert(refund_map(stg).take(kk + 1).remove(w) =~= refund_map(
                                stg,
                            ).take(kk));
                            assert(funds@ =~= base + refund_prefix(stg, kk + 1));
                        }
                    }
                    k += 1;
                }
                proof {
                    assert(refund_map(stg).take(n as int) =~= refund_map(stg));
                    assert(funds@ == base + refund_list(stg));
                    lemma_sum_funds_matches(refund_map(stg), stg.bids@);
                    lemma_sum_funds_remove(refund_map(stg), w);
                    lemma_sum_funds_concat(base, refund_list(stg));
                    let b1 = base.drop_last();
                    let b2 = b1.drop_last();
                    assert(b2.drop_last() =~= Seq::<FundsTransfer>::empty());
                    assert(sum_funds(Seq::<FundsTransfer>::empty()) == 0);
                    assert(sum_funds(b2) == b2.last().amount);
                    assert(sum_funds(b1) == sum_funds(b2) + b1.last().amount);
                    assert(sum_funds(base) == sum_funds(b1) + base.last().amount);
                    assert(stg.bids@[w].amount == stg.auction.highest_bid);
                    assert(refund_map(stg)[w].amount == stg.bids@[w].amount);
                    assert(stg.auction.highest_bid >= MINIMUM_AUCTION_FEE);
                    assert(tokens@.drop_last() =~= Seq::<TokenTransfer>::empty());
                    assert(sum_tokens(Seq::<TokenTransfer>::empty()) == 0);
                    assert(sum_tokens(tokens@) == stg.auction.num_tokens);
                    assert(old(self).state_of(token) == stg);
                }
                Settlement { funds, tokens }
            },
        }
    }

    /// Read-only snapshot of `token`'s auction: its record, its bidder
    /// list, its bids, and the funds escrowed for them.
    pub fn get_info(&self, token: TokenId) -> (r: Option<&AuctionState>)
        requires
            self.wf(),
        ensures
            match r {
                Some(st) => self.has_open(token) && *st == self.state_of(token),
                None => !self.has_open(token),
            },
    {
        match self.find_auction(token) {
            Some(i) => Some(&self.auctions[i]),
            None => None,
        }
    }
}

/// The exact state transition one admitted bid of `amount` from `bidder`
/// makes, from `st` to `stf`: a first bid appends the bidder and their
/// bid, a raise accumulates onto their prior total and refreshes its
/// timestamp; either way the escrow grows by the attached amount, and
/// leadership moves to the bidder exactly when their new total strictly
/// exceeds the standing highest bid.
pub open spec fn bid_transition(
    st: AuctionState,
    stf: AuctionState,
    bidder: AgentId,
    amount: u64,
    now: u64,
) -> bool {
    let raise = st.has_bid(bidder);
    let new_total = st.cumulative_of(bidder) + amount;
    &&& stf.bidders@ == if raise {
        st.bidders@
    } else {
        st.bidders@.push(bidder)
    }
    &&& stf.bids@ == if raise {
        st.bids@.update(
            st.index_of(bidder),
            (Bid {
                amount: new_total as u64,
                index: st.bids@[st.index_of(bidder)].index,
                timestamp: now,
            }),
        )
    } else {
        st.bids@.push((Bid { amount, index: st.bidders@.len() as u32, timestamp: now }))
    }
    &&& stf.escrowed_funds == st.escrowed_funds + amount
    &&& stf.auction == if new_total > st.auction.highest_bid {
        (Auction { highest_bid: new_total as u64, highest_bidder: Some(bidder), ..st.auction })
    } else {
        st.auction
    }
}

/// Replacing one store entry by another for the same token moves no other
/// auction and keeps the keys unique.
proof fn lemma_store_update(pre: FairAuction, post: FairAuction, idx: int, token: TokenId)
    requires
        pre.wf(),
        0 <= idx < pre.auctions@.len(),
        pre.auctions@[idx].auction.token == token,
        post.auctions@ == pre.auctions@.update(idx, post.auctions@[idx]),
        post.auctions@[idx].auction.token == token,
    ensures
        forall|t: TokenId| post.has_open(t) <==> pre.has_open(t),
        forall|t: TokenId|
            t != token && pre.has_open(t) ==> post.state_of(t) == pre.state_of(t),
        post.has_open(token),
        post.open_idx(token) == idx,
        forall|i: int, j: int|
            0 <= i < j < post.auctions@.len()
                ==> post.auctions@[i].auction.token != post.auctions@[j].auction.token,
{
    assert(forall|i: int|
        0 <= i < post.auctions@.len()
            ==> post.auctions@[i].auction.token == pre.auctions@[i].auction.token);
    assert forall|t: TokenId| post.has_open(t) implies pre.has_open(t) by {
        let c = post.open_idx(t);
        assert(pre.auctions@[c].auction.token == t);
    }
    assert forall|t: TokenId| pre.has_open(t) implies post.has_open(t) by {
        let c = pre.open_idx(t);
        assert(post.auctions@[c].auction.token == t);
    }
    assert forall|t: TokenId|
        t != token && pre.has_open(t) implies post.state_of(t) == pre.state_of(t) by {
        let c1 = pre.open_idx(t);
        assert(pre.auctions@[c1].auction.token == t);
        let c2 = post.open_idx(t);
        assert(post.auctions@[c2].auction.token == t);
        assert(c2 != idx);
        assert(pre.auctions@[c2].auction.token == t);
        if c1 < c2 {
            assert(pre.auctions@[c1].auction.token != pre.auctions@[c2].auction.token);
        } else if c2 < c1 {
            assert(pre.auctions@[c2].auction.token != pre.auctions@[c1].auction.token);
        }
    }
    assert(post.has_open(token));
    let c = post.open_idx(token);
    assert(post.auctions@[c].auction.token == token);
    if c != idx {
        assert(pre.auctions@[c].auction.token == token);
        if c < idx {
            assert(pre.auctions@[c].auction.token != pre.auctions@[idx].auction.token);
        } else {
            assert(pre.auctions@[idx].auction.token != pre.auctions@[c].auction.token);
        }
    }
}

/// Deleting one store entry moves no other auction and keeps the keys
/// unique.
proof fn lemma_store_remove(pre: FairAuction, post: FairAuction, idx: int, token: TokenId)
    requires
        pre.wf(),
        0 <= idx < pre.auctions@.len(),
        pre.auctions@[idx].auction.token == token,
        post.auctions@ == pre.auctions@.remove(idx),
    ensures
        !post.has_open(token),
        forall|t: TokenId| t != token ==> (post.has_open(t) <==> pre.has_open(t)),
        forall|t: TokenId|
            t != token && pre.has_open(t) ==> post.state_of(t) == pre.state_of(t),
        forall|i: int, j: int|
            0 <= i < j < post.auctions@.len()
                ==> post.auctions@[i].auction.token != post.auctions@[j].auction.token,
        forall|i: int| 0 <= i < post.auctions@.len() ==> post.auctions@[i].wf(),
{
    assert(forall|i: int|
        0 <= i < post.auctions@.len() ==> post.auctions@[i] == (if i < idx {
            pre.auctions@[i]
        } else {
            pre.auctions@[i + 1]
        }));
    assert forall|t: TokenId| post.has_open(t) implies t != token && pre.has_open(t) by {
        let c = post.open_idx(t);
        let c0 = if c < idx {
            c
        } else {
            c + 1
        };
        assert(pre.auctions@[c0].auction.token == t);
        if t == token && c0 < idx {
            assert(pre.auctions@[c0].auction.token != pre.auctions@[idx].auction.token);
        }
        if t == token && c0 > idx {
            assert(pre.auctions@[idx].auction.token != pre.auctions@[c0].auction.token);
        }
    }
    assert forall|t: TokenId| t != token && pre.has_open(t) implies post.has_open(t)
        && post.state_of(t) == pre.state_of(t) by {
        let c = pre.open_idx(t);
        assert(pre.auctions@[c].auction.token == t);
        assert(c != idx);
        let cp = if c < idx {
            c
        } else {
            c - 1
        };
        assert(post.auctions@[cp].auction.token == t);
        assert(post.has_open(t));
        let d = post.open_idx(t);
        assert(post.auctions@[d].auction.token == t);
        let d0 = if d < idx {
            d
        } else {
            d + 1
        };
        assert(pre.auctions@[d0].auction.token == t);
        if c < d0 {
            assert(pre.auctions@[c].auction.token != pre.auctions@[d0].auction.token);
        } else if d0 < c {
            assert(pre.auctions@[d0].auction.token != pre.auctions@[c].auction.token);
        }
    }
}

/// One pending refund per bidder, in arrival order, the winner included.
pub open spec fn refund_map(st: AuctionState) -> Seq<FundsTransfer> {
    Seq::new(
        st.bidders@.len(),
        |i: int| FundsTransfer { to: st.bidders@[i], amount: st.bids@[i].amount },
    )
}

/// The refunds finalization owes: every bidder's full cumulative amount,
/// in arrival order, the winner left out.
pub open spec fn refund_list(st: AuctionState) -> Seq<FundsTransfer> {
    refund_map(st).remove(st.winner_idx())
}

/// The refunds owed to the first `k` arrivals.
spec fn refund_prefix(st: AuctionState, k: int) -> Seq<FundsTransfer> {
    if st.winner_idx() < k {
        refund_map(st).take(k).remove(st.winner_idx())
    } else {
        refund_map(st).take(k)
    }
}

/// The fee the engine takes on `amount` at rate `margin` promille: the
/// rounded-down promille share, but never below `MINIMUM_AUCTION_FEE`.
///
/// The same formula, applied to `minimum_bid`, is the deposit floor a
/// creator is warned against at `start_auction`.
pub open spec fn fee_of(amount: u64, margin: u64) -> int {
    let share = (amount as int) * (margin as int) / 1000;
    if share < MINIMUM_AUCTION_FEE as int {
        MINIMUM_AUCTION_FEE as int
    } else {
        share
    }
}

/// The promille share never exceeds the amount it is taken from.
proof fn lemma_share_le(amount: u64, margin: u64)
    requires
        margin <= 1000,
    ensures
        0 <= (amount as int) * (margin as int) / 1000 <= amount as int,
{
    assert((amount as int) * (margin as int) <= (amount as int) * 1000) by (nonlinear_arith)
        requires
            margin <= 1000,
    ;
    assert(0 <= (amount as int) * (margin as int)) by (nonlinear_arith);
    assert((amount as int) * 1000 / 1000 == amount as int) by (nonlinear_arith);
    vstd::arithmetic::div_mod::lemma_div_is_ordered(
        (amount as int) * (margin as int),
        (amount as int) * 1000,
        1000,
    );
}

/// Computes `fee_of` without overflow by widening the product.
fn fee_amount(amount: u64, margin: u64) -> (r: u64)
    requires
        margin <= 1000,
    ensures
        r as int == fee_of(amount, margin),
        amount >= MINIMUM_AUCTION_FEE ==> r <= amount,
{
    proof {
        lemma_share_le(amount, margin);
    }
    let share_wide: u128 = (amount as u128) * (margin as u128) / 1000;
    let share: u64 = share_wide as u64;
    if share < MINIMUM_AUCTION_FEE {
        MINIMUM_AUCTION_FEE
    } else {
        share
    }
}

/// The rate `set_owner_margin` actually stores for a requested rate.
pub open spec fn clamp_margin(rate: u64) -> u64 {
    if rate < OWNER_MARGIN_MIN {
        OWNER_MARGIN_MIN
    } else if rate > OWNER_MARGIN_MAX {
        OWNER_MARGIN_MAX
    } else {
        rate
    }
}

} // verus!
