use fairauction::types::AgentId;
use fairauction::types::Auction;
use fairauction::types::Bid;
use fairauction::types::TokenId;

fn sample_auction(highest_bidder: Option<AgentId>) -> Auction {
    Auction {
        creator: AgentId(2),
        deposit: 10,
        description: String::from("one lot of sale tokens"),
        duration: 60,
        highest_bid: if highest_bidder.is_some() { 90 } else { 0 },
        highest_bidder,
        minimum_bid: 50,
        num_tokens: 100,
        owner_margin: 50,
        token: TokenId(7),
        when_started: 1000,
    }
}

fn assert_same(a: &Auction, b: &Auction) {
    assert_eq!(a.creator, b.creator);
    assert_eq!(a.deposit, b.deposit);
    assert_eq!(a.description, b.description);
    assert_eq!(a.duration, b.duration);
    assert_eq!(a.highest_bid, b.highest_bid);
    assert_eq!(a.highest_bidder, b.highest_bidder);
    assert_eq!(a.minimum_bid, b.minimum_bid);
    assert_eq!(a.num_tokens, b.num_tokens);
    assert_eq!(a.owner_margin, b.owner_margin);
    assert_eq!(a.token, b.token);
    assert_eq!(a.when_started, b.when_started);
}

#[test]
fn auction_round_trip_without_bids() {
    let a = sample_auction(None);
    let bytes = a.to_bytes();
    let back = Auction::from_bytes(&bytes);
    assert_same(&a, &back);
}

#[test]
fn auction_round_trip_with_winner() {
    let a = sample_auction(Some(AgentId(10)));
    let bytes = a.to_bytes();
    let back = Auction::from_bytes(&bytes);
    assert_same(&a, &back);
}

#[test]
fn auction_round_trip_with_large_values() {
    let mut a = sample_auction(Some(AgentId(u64::MAX)));
    a.deposit = u64::MAX;
    a.highest_bid = u64::MAX - 1;
    a.duration = u32::MAX;
    a.description = String::from("zü richtig — ユニコード");
    let bytes = a.to_bytes();
    let back = Auction::from_bytes(&bytes);
    assert_same(&a, &back);
}

#[test]
fn bid_round_trip() {
    let b = Bid { amount: 1234567890123, index: 42, timestamp: 999 };
    let bytes = b.to_bytes();
    let back = Bid::from_bytes(&bytes);
    assert_eq!(b, back);
}

#[test]
fn small_values_encode_as_single_bytes() {
    let b = Bid { amount: 5, index: 1, timestamp: 7 };
    // three values below 128: one vlu byte each
    assert_eq!(b.to_bytes(), vec![5u8, 1u8, 7u8]);
}

#[test]
fn vlu_splits_seven_bit_groups() {
    let b = Bid { amount: 200, index: 0, timestamp: 300 };
    // 200 = 72 + 1 * 128, 300 = 44 + 2 * 128
    assert_eq!(b.to_bytes(), vec![72 | 0x80, 1, 0, 44 | 0x80, 2]);
}
