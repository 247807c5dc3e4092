//! The ranking law. Replaying any sequence of admitted bids, the standing
//! highest bid always equals the maximum cumulative amount over all
//! bidders, and the standing leader is the first bidder ever to have
//! reached that amount: a later bidder who merely matches it never takes
//! the lead.

use vstd::prelude::*;

use crate::engine::AuctionState;
use crate::types::AgentId;

verus! {

/// One admitted bid: `bidder` raised their cumulative total by `amount`.
#[derive(Clone, Copy, PartialEq, Eq, Structural, Debug)]
pub struct BidEvent {
    pub bidder: AgentId,
    pub amount: u64,
}

/// Cumulative total of `b` after the admitted bids `evs`.
pub open spec fn cumulative_after(evs: Seq<BidEvent>, b: AgentId) -> int
    decreases evs.len(),
{
    if evs.len() == 0 {
        0
    } else {
        cumulative_after(evs.drop_last(), b) + if evs.last().bidder == b {
            evs.last().amount as int
        } else {
            0
        }
    }
}

/// The standing highest bid after the admitted bids `evs`: it moves to a
/// bidder's new total exactly when that total strictly exceeds it.
pub open spec fn high_after(evs: Seq<BidEvent>) -> int
    decreases evs.len(),
{
    if evs.len() == 0 {
        0
    } else {
        let h = high_after(evs.drop_last());
        let c = cumulative_after(evs, evs.last().bidder);
        if c > h {
            c
        } else {
            h
        }
    }
}

/// The standing leader after the admitted bids `evs`; meaningful only
/// when `evs` is not empty.
pub open spec fn leader_after(evs: Seq<BidEvent>) -> AgentId
    decreases evs.len(),
{
    if evs.len() == 0 {
        AgentId(0)
    } else {
        let h = high_after(evs.drop_last());
        let c = cumulative_after(evs, evs.last().bidder);
        if c > h {
            evs.last().bidder
        } else {
            leader_after(evs.drop_last())
        }
    }
}

/// A prefix of the admitted bids never holds more of a bidder's money
/// than the whole.
pub proof fn lemma_cumulative_take(evs: Seq<BidEvent>, m: int, b: AgentId)
    requires
        0 <= m <= evs.len(),
    ensures
        cumulative_after(evs.take(m), b) <= cumulative_after(evs, b),
    decreases evs.len(),
{
    if m == evs.len() {
        assert(evs.take(m) =~= evs);
    } else {
        assert(evs.drop_last().take(m) =~= evs.take(m));
        lemma_cumulative_take(evs.drop_last(), m, b);
    }
}

/// The ranking law over any replay of admitted bids: the standing highest
/// bid is the maximum cumulative amount, the standing leader holds it,
/// and the leader reached it at some admitted bid before which no bidder
/// had ever reached it — the earliest to reach the maximum wins, ties by
/// a later arrival notwithstanding.
pub proof fn lemma_ranking(evs: Seq<BidEvent>)
    requires
        evs.len() > 0,
        forall|k: int| 0 <= k < evs.len() ==> evs[k].amount > 0,
    ensures
        high_after(evs) > 0,
        forall|b: AgentId| cumulative_after(evs, b) <= high_after(evs),
        cumulative_after(evs, leader_after(evs)) == high_after(evs),
        exists|k: int|
            0 <= k < evs.len() && evs[k].bidder == leader_after(evs) && cumulative_after(
                evs.take(k + 1),
                leader_after(evs),
            ) == high_after(evs) && (forall|j: int, b: AgentId|
                0 <= j <= k ==> cumulative_after(evs.take(j), b) < high_after(evs)),
    decreases evs.len(),
{
    let pre = evs.drop_last();
    let e = evs.last();
    let h0 = high_after(pre);
    let c = cumulative_after(evs, e.bidder);
    assert(forall|b: AgentId|
        b != e.bidder ==> cumulative_after(evs, b) == cumulative_after(pre, b));
    if pre.len() == 0 {
        assert(forall|b: AgentId| cumulative_after(pre, b) == 0);
        assert(cumulative_after(pre, e.bidder) == 0);
        assert(c == cumulative_after(pre, e.bidder) + e.amount);
        assert(c == e.amount);
        assert(evs.take(1) =~= evs);
        assert forall|j: int, b: AgentId| 0 <= j <= 0 implies cumulative_after(
            evs.take(j),
            b,
        ) < high_after(evs) by {
            assert(evs.take(j).len() == 0);
        }
    } else {
        lemma_ranking(pre);
        if c > h0 {
            let k = evs.len() - 1;
            assert(evs.take(k + 1) =~= evs);
            assert forall|j: int, b: AgentId| 0 <= j <= k implies cumulative_after(
                evs.take(j),
                b,
            ) < high_after(evs) by {
                assert(evs.take(j) =~= pre.take(j));
                lemma_cumulative_take(pre, j, b);
            }
        } else {
            let k0 = choose|k: int|
                0 <= k < pre.len() && pre[k].bidder == leader_after(pre) && cumulative_after(
                    pre.take(k + 1),
                    leader_after(pre),
                ) == high_after(pre) && (forall|j: int, b: AgentId|
                    0 <= j <= k ==> cumulative_after(pre.take(j), b) < high_after(pre));
            assert(evs.take(k0 + 1) =~= pre.take(k0 + 1));
            assert(evs[k0] == pre[k0]);
            assert forall|j: int, b: AgentId| 0 <= j <= k0 implies cumulative_after(
                evs.take(j),
                b,
            ) < high_after(evs) by {
                assert(evs.take(j) =~= pre.take(j));
            }
            assert(0 <= k0 < evs.len() && evs[k0].bidder == leader_after(evs)
                && cumulative_after(evs.take(k0 + 1), leader_after(evs)) == high_after(evs));
        }
    }
}

/// `st` is the engine state reached by replaying the admitted bids `evs`:
/// same cumulative totals, same standing highest bid, same leader.
pub open spec fn tracks(st: AuctionState, evs: Seq<BidEvent>) -> bool {
    &&& forall|b: AgentId| st.cumulative_of(b) == cumulative_after(evs, b)
    &&& st.auction.highest_bid as int == high_after(evs)
    &&& (evs.len() == 0 <==> st.bidders@.len() == 0)
    &&& (evs.len() > 0 ==> st.auction.highest_bidder == Some(leader_after(evs)))
}

/// A fresh auction tracks the empty replay.
pub proof fn lemma_tracks_empty(st: AuctionState)
    requires
        st.bidders@.len() == 0,
        st.auction.highest_bid == 0,
        st.auction.highest_bidder is None,
    ensures
        tracks(st, Seq::<BidEvent>::empty()),
{
    assert(forall|b: AgentId| !st.has_bid(b));
}

/// One admitted bid keeps the engine on the replay: the transition
/// `place_bid` promises for an `Ok` call takes a state tracking `evs` to
/// a state tracking `evs` plus that bid.
pub proof fn lemma_bid_step_tracks(
    st: AuctionState,
    stf: AuctionState,
    bidder: AgentId,
    amount: u64,
    now: u64,
    evs: Seq<BidEvent>,
)
    requires
        st.wf(),
        tracks(st, evs),
        amount > 0,
        st.cumulative_of(bidder) + amount <= u64::MAX,
        crate::engine::bid_transition(st, stf, bidder, amount, now),
    ensures
        tracks(stf, evs.push(BidEvent { bidder, amount })),
{
    let ev = BidEvent { bidder, amount };
    let evs2 = evs.push(ev);
    assert(evs2.drop_last() =~= evs);
    assert(evs2.last() == ev);
    let raise = st.has_bid(bidder);
    assert forall|p: int, q: int|
        0 <= p < q < stf.bidders@.len() implies stf.bidders@[p] != stf.bidders@[q] by {
        if !raise && q == st.bidders@.len() {
            if st.bidders@[p] == bidder {
                assert(st.has_bid(bidder));
            }
        }
    }
    if raise {
        let i = st.index_of(bidder);
        assert(st.bidders@[i] == bidder);
        stf.lemma_bidder_at(i);
        assert(stf.cumulative_of(bidder) == st.cumulative_of(bidder) + amount);
        assert forall|b: AgentId| b != bidder implies stf.cumulative_of(b)
            == st.cumulative_of(b) by {
            if st.has_bid(b) {
                let j = st.index_of(b);
                assert(st.bidders@[j] == b);
                stf.lemma_bidder_at(j);
                assert(j != i);
            } else {
                if stf.has_bid(b) {
                    let j = stf.index_of(b);
                    assert(st.bidders@[j] == b);
                    assert(st.has_bid(b));
                }
            }
        }
    } else {
        let n = st.bidders@.len() as int;
        stf.lemma_bidder_at(n);
        assert(stf.cumulative_of(bidder) == amount);
        assert(st.cumulative_of(bidder) == 0);
        assert forall|b: AgentId| b != bidder implies stf.cumulative_of(b)
            == st.cumulative_of(b) by {
            if st.has_bid(b) {
                let j = st.index_of(b);
                assert(st.bidders@[j] == b);
                assert(stf.bidders@[j] == b);
                stf.lemma_bidder_at(j);
            } else {
                if stf.has_bid(b) {
                    let j = stf.index_of(b);
                    assert(stf.bidders@[j] == b);
                    if j < n {
                        assert(st.has_bid(b));
                    }
                }
            }
        }
    }
    assert(cumulative_after(evs2, bidder) == cumulative_after(evs, bidder) + amount);
    assert(forall|b: AgentId|
        b != bidder ==> cumulative_after(evs2, b) == cumulative_after(evs, b));
    assert(stf.bidders@.len() > 0);
}

} // verus!
