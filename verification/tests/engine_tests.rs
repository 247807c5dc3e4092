use fairauction::engine::FairAuction;
use fairauction::types::AgentId;
use fairauction::types::AuctionError;
use fairauction::types::FundsTransfer;
use fairauction::types::TokenId;
use fairauction::types::DURATION_DEFAULT;
use fairauction::types::OWNER_MARGIN_DEFAULT;
use fairauction::types::OWNER_MARGIN_MAX;
use fairauction::types::OWNER_MARGIN_MIN;

const OPERATOR: AgentId = AgentId(1);
const CREATOR: AgentId = AgentId(2);
const ALICE: AgentId = AgentId(10);
const BOB: AgentId = AgentId(11);
const SALE: TokenId = TokenId(7);

fn open_auction(engine: &mut FairAuction) {
    let r = engine.start_auction(SALE, 100, 50, 60, String::from("sale"), 10, CREATOR, 1000);
    assert_eq!(r, Ok(true));
}

#[test]
fn start_rejects_zero_tokens() {
    let mut engine = FairAuction::new(OPERATOR);
    let r = engine.start_auction(SALE, 0, 50, 60, String::new(), 10, CREATOR, 1000);
    assert_eq!(r, Err(AuctionError::InvalidSale));
    assert!(engine.get_info(SALE).is_none());
}

#[test]
fn start_rejects_second_auction_for_same_token() {
    let mut engine = FairAuction::new(OPERATOR);
    open_auction(&mut engine);
    let r = engine.start_auction(SALE, 5, 1, 1, String::new(), 10, CREATOR, 1000);
    assert_eq!(r, Err(AuctionError::AuctionAlreadyOpen));
}

#[test]
fn start_substitutes_default_duration() {
    let mut engine = FairAuction::new(OPERATOR);
    let r = engine.start_auction(SALE, 100, 50, 0, String::from("x"), 10, CREATOR, 1000);
    assert_eq!(r, Ok(true));
    let st = engine.get_info(SALE).unwrap();
    assert_eq!(st.auction.duration, DURATION_DEFAULT);
}

#[test]
fn start_warns_on_deposit_below_fee_floor() {
    let mut engine = FairAuction::new(OPERATOR);
    // floor = max(50 * 50 / 1000, 1) = 2; a deposit of 1 is admitted with
    // a warning rather than rejected.
    let r = engine.start_auction(SALE, 100, 50, 60, String::new(), 1, CREATOR, 1000);
    assert_eq!(r, Ok(false));
    let st = engine.get_info(SALE).unwrap();
    assert_eq!(st.auction.deposit, 1);
}

#[test]
fn new_auction_record_fields() {
    let mut engine = FairAuction::new(OPERATOR);
    open_auction(&mut engine);
    let st = engine.get_info(SALE).unwrap();
    assert_eq!(st.auction.creator, CREATOR);
    assert_eq!(st.auction.deposit, 10);
    assert_eq!(st.auction.description.as_str(), "sale");
    assert_eq!(st.auction.duration, 60);
    assert_eq!(st.auction.highest_bid, 0);
    assert_eq!(st.auction.highest_bidder, None);
    assert_eq!(st.auction.minimum_bid, 50);
    assert_eq!(st.auction.num_tokens, 100);
    assert_eq!(st.auction.owner_margin, OWNER_MARGIN_DEFAULT);
    assert_eq!(st.auction.token, SALE);
    assert_eq!(st.auction.when_started, 1000);
    assert_eq!(st.bidders.len(), 0);
    assert_eq!(st.bids.len(), 0);
    assert_eq!(st.escrowed_funds, 0);
}

#[test]
fn bid_without_auction_is_rejected() {
    let mut engine = FairAuction::new(OPERATOR);
    let r = engine.place_bid(SALE, ALICE, 50, 1100);
    assert_eq!(r, Err(AuctionError::NoSuchAuction));
}

#[test]
fn zero_bid_is_rejected() {
    let mut engine = FairAuction::new(OPERATOR);
    open_auction(&mut engine);
    let r = engine.place_bid(SALE, ALICE, 0, 1100);
    assert_eq!(r, Err(AuctionError::ZeroBid));
}

#[test]
fn low_first_bid_is_rejected_and_escrows_nothing() {
    let mut engine = FairAuction::new(OPERATOR);
    open_auction(&mut engine);
    let r = engine.place_bid(SALE, ALICE, 30, 1100);
    assert_eq!(r, Err(AuctionError::BidTooLow));
    let st = engine.get_info(SALE).unwrap();
    assert_eq!(st.bidders.len(), 0);
    assert_eq!(st.bids.len(), 0);
    assert_eq!(st.escrowed_funds, 0);
    assert_eq!(st.auction.highest_bid, 0);
}

#[test]
fn escrow_always_equals_sum_of_cumulative_amounts() {
    let mut engine = FairAuction::new(OPERATOR);
    open_auction(&mut engine);
    assert_eq!(engine.get_info(SALE).unwrap().escrowed_funds, 0);
    engine.place_bid(SALE, ALICE, 50, 1100).unwrap();
    assert_eq!(engine.get_info(SALE).unwrap().escrowed_funds, 50);
    engine.place_bid(SALE, BOB, 80, 1200).unwrap();
    assert_eq!(engine.get_info(SALE).unwrap().escrowed_funds, 130);
    engine.place_bid(SALE, ALICE, 40, 1300).unwrap();
    let st = engine.get_info(SALE).unwrap();
    let total: u64 = st.bids.iter().map(|b| b.amount).sum();
    assert_eq!(st.escrowed_funds, total);
    assert_eq!(st.escrowed_funds, 170);
    engine.finalize_auction(SALE);
    assert!(engine.get_info(SALE).is_none());
}

#[test]
fn tie_does_not_transfer_leadership() {
    let mut engine = FairAuction::new(OPERATOR);
    open_auction(&mut engine);
    engine.place_bid(SALE, ALICE, 50, 1100).unwrap();
    engine.place_bid(SALE, BOB, 50, 1200).unwrap();
    let st = engine.get_info(SALE).unwrap();
    assert_eq!(st.auction.highest_bid, 50);
    assert_eq!(st.auction.highest_bidder, Some(ALICE));
}

#[test]
fn raising_own_bid_below_minimum_is_accepted() {
    let mut engine = FairAuction::new(OPERATOR);
    open_auction(&mut engine);
    engine.place_bid(SALE, ALICE, 50, 1100).unwrap();
    let r = engine.place_bid(SALE, ALICE, 10, 1200);
    assert_eq!(r, Ok(()));
    let st = engine.get_info(SALE).unwrap();
    assert_eq!(st.bids[0].amount, 60);
    assert_eq!(st.bids[0].timestamp, 1200);
    assert_eq!(st.auction.highest_bid, 60);
}

#[test]
fn bidder_list_keeps_arrival_order_and_indices() {
    let mut engine = FairAuction::new(OPERATOR);
    open_auction(&mut engine);
    engine.place_bid(SALE, ALICE, 50, 1100).unwrap();
    engine.place_bid(SALE, BOB, 80, 1200).unwrap();
    engine.place_bid(SALE, ALICE, 40, 1300).unwrap();
    let st = engine.get_info(SALE).unwrap();
    assert_eq!(st.bidders, vec![ALICE, BOB]);
    assert_eq!(st.bids[0].index, 0);
    assert_eq!(st.bids[1].index, 1);
}

#[test]
fn finalize_without_bids_returns_everything_to_creator() {
    let mut engine = FairAuction::new(OPERATOR);
    open_auction(&mut engine);
    let s = engine.finalize_auction(SALE);
    assert_eq!(s.tokens.len(), 1);
    assert_eq!(s.tokens[0].to, CREATOR);
    assert_eq!(s.tokens[0].token, SALE);
    assert_eq!(s.tokens[0].amount, 100);
    assert_eq!(s.funds, vec![FundsTransfer { to: CREATOR, amount: 10 }]);
    assert!(engine.get_info(SALE).is_none());
}

#[test]
fn finalize_settles_winner_creator_operator_and_refunds() {
    let mut engine = FairAuction::new(OPERATOR);
    open_auction(&mut engine);
    engine.place_bid(SALE, ALICE, 50, 1100).unwrap();
    assert_eq!(engine.get_info(SALE).unwrap().auction.highest_bidder, Some(ALICE));
    engine.place_bid(SALE, BOB, 80, 1200).unwrap();
    assert_eq!(engine.get_info(SALE).unwrap().auction.highest_bidder, Some(BOB));
    engine.place_bid(SALE, ALICE, 40, 1300).unwrap();
    let st = engine.get_info(SALE).unwrap();
    assert_eq!(st.auction.highest_bid, 90);
    assert_eq!(st.auction.highest_bidder, Some(ALICE));
    let s = engine.finalize_auction(SALE);
    // fee = max(90 * 50 / 1000, 1) = 4
    assert_eq!(s.tokens.len(), 1);
    assert_eq!(s.tokens[0].to, ALICE);
    assert_eq!(s.tokens[0].amount, 100);
    assert_eq!(
        s.funds,
        vec![
            FundsTransfer { to: CREATOR, amount: 86 },
            FundsTransfer { to: OPERATOR, amount: 4 },
            FundsTransfer { to: CREATOR, amount: 10 },
            FundsTransfer { to: BOB, amount: 80 },
        ]
    );
    // every escrowed coin is paid out exactly once
    let paid: u64 = s.funds.iter().map(|t| t.amount).sum();
    assert_eq!(paid, 170 + 10);
    assert!(engine.get_info(SALE).is_none());
}

#[test]
fn finalize_twice_is_a_noop() {
    let mut engine = FairAuction::new(OPERATOR);
    open_auction(&mut engine);
    engine.place_bid(SALE, ALICE, 50, 1100).unwrap();
    engine.finalize_auction(SALE);
    let s = engine.finalize_auction(SALE);
    assert!(s.funds.is_empty());
    assert!(s.tokens.is_empty());
    assert!(engine.get_info(SALE).is_none());
}

#[test]
fn finalize_never_started_token_is_a_noop() {
    let mut engine = FairAuction::new(OPERATOR);
    let s = engine.finalize_auction(TokenId(99));
    assert!(s.funds.is_empty());
    assert!(s.tokens.is_empty());
}

#[test]
fn margin_is_clamped_not_rejected() {
    let mut engine = FairAuction::new(OPERATOR);
    engine.set_owner_margin(0);
    engine.start_auction(TokenId(1), 10, 10, 1, String::new(), 10, CREATOR, 1).unwrap();
    assert_eq!(engine.get_info(TokenId(1)).unwrap().auction.owner_margin, OWNER_MARGIN_MIN);
    engine.set_owner_margin(2000);
    engine.start_auction(TokenId(2), 10, 10, 1, String::new(), 10, CREATOR, 1).unwrap();
    assert_eq!(engine.get_info(TokenId(2)).unwrap().auction.owner_margin, OWNER_MARGIN_MAX);
    engine.set_owner_margin(70);
    engine.start_auction(TokenId(3), 10, 10, 1, String::new(), 10, CREATOR, 1).unwrap();
    assert_eq!(engine.get_info(TokenId(3)).unwrap().auction.owner_margin, 70);
}

#[test]
fn margin_change_does_not_touch_open_auctions() {
    let mut engine = FairAuction::new(OPERATOR);
    open_auction(&mut engine);
    engine.set_owner_margin(100);
    let st = engine.get_info(SALE).unwrap();
    assert_eq!(st.auction.owner_margin, OWNER_MARGIN_DEFAULT);
}

#[test]
fn auctions_for_different_tokens_are_independent() {
    let mut engine = FairAuction::new(OPERATOR);
    open_auction(&mut engine);
    engine.start_auction(TokenId(8), 5, 1, 1, String::new(), 10, CREATOR, 1).unwrap();
    engine.place_bid(TokenId(8), BOB, 3, 2).unwrap();
    engine.finalize_auction(SALE);
    let st = engine.get_info(TokenId(8)).unwrap();
    assert_eq!(st.auction.highest_bid, 3);
    assert!(engine.get_info(SALE).is_none());
}

#[test]
fn minimum_fee_applies_to_tiny_winning_bids() {
    let mut engine = FairAuction::new(OPERATOR);
    engine.start_auction(SALE, 10, 1, 1, String::new(), 10, CREATOR, 1).unwrap();
    engine.place_bid(SALE, ALICE, 1, 2).unwrap();
    let s = engine.finalize_auction(SALE);
    // fee = max(1 * 50 / 1000, 1) = 1, so the whole winning bid is the fee
    assert_eq!(
        s.funds,
        vec![
            FundsTransfer { to: CREATOR, amount: 0 },
            FundsTransfer { to: OPERATOR, amount: 1 },
            FundsTransfer { to: CREATOR, amount: 10 },
        ]
    );
}
