//! End-to-end auction flows: minimal bids, the anti-snipe extension, the
//! buyout, and settlement after the end.
use nft_bid_market::auction::EXTENSION_DURATION;
use nft_bid_market::common::MarketError;
use nft_bid_market::market_core::{
    ApproveOutcome, ArgsKind, AuctionArgs, NonFungibleTokenApprovalReceiver,
};
use nft_bid_market::sale::Payout;
use nft_bid_market::{Market, STORAGE_PER_SALE};

const NOW: u64 = 1_000_000_000_000;
const DAY: u64 = 24 * 60 * 60 * 1_000_000_000;

fn market_with_auction(buy_out: Option<u128>) -> (Market, u128) {
    let mut m = Market::new(vec!["nft".to_string()], "market_owner".to_string());
    m.storage_deposit(None, "seller".to_string(), STORAGE_PER_SALE).unwrap();
    let args = ArgsKind::Auction(AuctionArgs {
        token_type: None,
        minimal_step: 100,
        start_price: 10_000,
        start: None,
        duration: DAY,
        buy_out_price: buy_out,
        origins: None,
    });
    let outcome = m
        .nft_on_approve(
            "1:1".to_string(),
            "seller".to_string(),
            1,
            args,
            "nft".to_string(),
            "seller".to_string(),
            NOW,
        )
        .unwrap();
    let id = match outcome {
        ApproveOutcome::Auction(id, json) => {
            assert_eq!(json.start, NOW);
            assert_eq!(json.end, NOW + DAY);
            id
        },
        _ => panic!("expected an auction"),
    };
    (m, id)
}

#[test]
fn auction_scenario_minimum_rejection_and_buyout() {
    // Start price 10_000, step 100, buyout 10_000_000_000.
    let (mut m, id) = market_with_auction(Some(10_000_000_000));
    // The minimal first bid is the fee-inclusive start price: 10_300.
    assert_eq!(m.get_minimal_next_bid(id), Ok(10_000));
    let r = m.auction_add_bid(id, None, None, "bidder1".to_string(), 10_300, NOW + 1);
    assert!(matches!(r, Ok(None)));
    assert_eq!(m.get_current_bid(id), Ok(Some(10_000)));
    assert_eq!(m.get_current_buyer(id).unwrap().unwrap(), "bidder1");
    // The next bid must reach priceWithFees(10_000 + 100) = 10_403.
    assert_eq!(m.get_minimal_next_bid(id), Ok(10_100));
    let r = m.auction_add_bid(id, None, None, "bidder2".to_string(), 10_402, NOW + 2);
    assert_eq!(r.unwrap_err(), MarketError::DepositTooLow);
    // A payment reaching priceWithFees(buyout) = 10_300_000_000 closes the
    // auction at once, refunding the previous bid.
    let r = m
        .auction_add_bid(id, None, None, "bidder2".to_string(), 10_300_000_000, NOW + 3)
        .unwrap();
    let refund = r.unwrap();
    assert_eq!(refund.receiver_id, "bidder1");
    assert_eq!(refund.amount, 10_300);
    let json = m.get_auction(id).unwrap();
    assert_eq!(json.end, NOW + 3);
    // The buyout puts the auction out of progress at that very instant and
    // at any later one.
    assert_eq!(m.check_auction_in_progress(id, NOW + 3), Ok(false));
    assert_eq!(m.check_auction_in_progress(id, NOW + 4), Ok(false));
}

#[test]
fn late_bid_extends_the_end_by_the_soft_close_window() {
    let (mut m, id) = market_with_auction(None);
    // A bid in the last minute of the auction pushes the end out.
    let late = NOW + DAY - 60 * 1_000_000_000;
    let r = m.auction_add_bid(id, None, None, "bidder1".to_string(), 10_300, late);
    assert!(r.is_ok());
    let json = m.get_auction(id).unwrap();
    assert_eq!(json.end, late + EXTENSION_DURATION);
    // An early bid leaves the end alone.
    let (mut m2, id2) = market_with_auction(None);
    let early = NOW + 1;
    m2.auction_add_bid(id2, None, None, "bidder1".to_string(), 10_300, early).unwrap();
    let json2 = m2.get_auction(id2).unwrap();
    assert_eq!(json2.end, NOW + DAY);
}

#[test]
fn finish_auction_settles_with_the_final_bid() {
    let (mut m, id) = market_with_auction(None);
    m.auction_add_bid(id, None, None, "bidder1".to_string(), 10_300, NOW + 1).unwrap();
    // Too early to finish.
    let r = m.finish_auction(id, NOW + 2, &"market".to_string());
    assert_eq!(r.unwrap_err(), MarketError::AuctionNotFinished);
    // After the end: settlement starts with the bid's price and bidder.
    let req = m.finish_auction(id, NOW + DAY + 1, &"market".to_string()).unwrap();
    assert_eq!(req.receiver_id, "bidder1");
    assert_eq!(req.price, 10_300);
    assert!(m.get_auction(id).is_err());
    // The payout disburses exactly the listed amounts.
    let payout = Payout {
        payout: vec![("seller".to_string(), 9_991u128), ("market".to_string(), 309u128)],
    };
    let (balance, transfers) =
        m.resolve_finish_auction("near".to_string(), "bidder1".to_string(), 10_300, Some(payout));
    assert_eq!(balance, 10_300);
    assert_eq!(transfers.len(), 2);
    assert!(transfers.iter().any(|t| t.receiver_id == "seller" && t.amount == 9_991));
    // And a failed transfer refunds the buyer.
    let (balance, transfers) =
        m.resolve_finish_auction("near".to_string(), "bidder1".to_string(), 10_300, None);
    assert_eq!(balance, 10_300);
    assert_eq!(transfers.len(), 1);
    assert_eq!(transfers[0].receiver_id, "bidder1");
    assert_eq!(transfers[0].amount, 10_300);
}

#[test]
fn cancel_auction_only_before_the_first_bid() {
    let (mut m, id) = market_with_auction(None);
    // Only the owner.
    let r = m.cancel_auction(id, "mallory".to_string(), 1);
    assert_eq!(r.unwrap_err(), MarketError::NotOwner);
    // After a bid cancellation is impossible.
    let (mut m2, id2) = market_with_auction(None);
    m2.auction_add_bid(id2, None, None, "bidder1".to_string(), 10_300, NOW + 1).unwrap();
    let r = m2.cancel_auction(id2, "seller".to_string(), 1);
    assert_eq!(r.unwrap_err(), MarketError::AuctionHasBid);
    // The clean case removes the record.
    m.cancel_auction(id, "seller".to_string(), 1).unwrap();
    assert!(m.get_auction(id).is_err());
}

#[test]
fn auction_validation_errors() {
    let mut m = Market::new(vec!["nft".to_string()], "market_owner".to_string());
    m.storage_deposit(None, "seller".to_string(), STORAGE_PER_SALE).unwrap();
    // Too short a duration.
    let args = ArgsKind::Auction(AuctionArgs {
        token_type: None,
        minimal_step: 100,
        start_price: 10_000,
        start: None,
        duration: 60,
        buy_out_price: None,
        origins: None,
    });
    let r = m.nft_on_approve(
        "1:1".to_string(),
        "seller".to_string(),
        1,
        args,
        "nft".to_string(),
        "seller".to_string(),
        NOW,
    );
    assert_eq!(r.unwrap_err(), MarketError::IncorrectDuration);
    // A start in the past.
    let args = ArgsKind::Auction(AuctionArgs {
        token_type: None,
        minimal_step: 100,
        start_price: 10_000,
        start: Some(NOW - 1),
        duration: DAY,
        buy_out_price: None,
        origins: None,
    });
    let r = m.nft_on_approve(
        "1:1".to_string(),
        "seller".to_string(),
        1,
        args,
        "nft".to_string(),
        "seller".to_string(),
        NOW,
    );
    assert_eq!(r.unwrap_err(), MarketError::IncorrectStartTime);
    // Bidding on a missing auction.
    let r = m.auction_add_bid(7, None, None, "bidder".to_string(), 10_300, NOW);
    assert_eq!(r.unwrap_err(), MarketError::NoAuction);
    // The owner cannot bid on their own auction.
    let (mut m2, id2) = market_with_auction(None);
    let r = m2.auction_add_bid(id2, None, None, "seller".to_string(), 10_300, NOW + 1);
    assert_eq!(r.unwrap_err(), MarketError::OwnerCannotBid);
    // Finishing without a bid.
    let r = m2.finish_auction(id2, NOW + DAY + 1, &"market".to_string());
    assert_eq!(r.unwrap_err(), MarketError::NoBid);
}

#[test]
fn hack_finish_auction_forces_the_end() {
    let (mut m, id) = market_with_auction(None);
    m.auction_add_bid(id, None, None, "bidder1".to_string(), 10_300, NOW + 1).unwrap();
    m.hack_finish_auction(id, NOW + 2).unwrap();
    assert_eq!(m.get_auction(id).unwrap().end, NOW + 2);
    assert!(m.finish_auction(id, NOW + 3, &"market".to_string()).is_ok());
}

#[test]
fn auction_window_is_half_open() {
    // Bids are accepted from the very start of the auction...
    let (mut m, id) = market_with_auction(None);
    assert_eq!(m.check_auction_in_progress(id, NOW), Ok(true));
    m.auction_add_bid(id, None, None, "bidder1".to_string(), 10_300, NOW).unwrap();
    // ...and no longer at its end.
    assert_eq!(m.check_auction_in_progress(id, NOW + DAY), Ok(false));
    let r = m.auction_add_bid(id, None, None, "bidder2".to_string(), 20_600, NOW + DAY);
    assert_eq!(r.unwrap_err(), MarketError::AuctionNotInProgress);
}
