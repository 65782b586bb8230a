//! The fee-and-transfer auction session: two auctions with an origin share,
//! one cancelled, one bid up with the soft-close extension and finished
//! after its end.
use nft_bid_market::auction::EXTENSION_DURATION;
use nft_bid_market::common::MarketError;
use nft_bid_market::market_core::{
    ApproveOutcome, ArgsKind, AuctionArgs, NonFungibleTokenApprovalReceiver,
};
use nft_bid_market::{Market, STORAGE_PER_SALE};

const NOW: u64 = 1_600_000_000_000_000_000;

#[test]
fn test_fees_transfers() {
    let mut market = Market::new(vec!["nft".to_string()], "market_owner".to_string());
    market
        .storage_deposit(None, "user1".to_string(), 2 * STORAGE_PER_SALE)
        .unwrap();
    let origins = vec![("origin1".to_string(), 100u32)];
    for i in 1..3u32 {
        let token_id = format!("1:{}", i);
        let args = ArgsKind::Auction(AuctionArgs {
            token_type: Some("near".to_string()),
            minimal_step: 100,
            start_price: 10_000,
            start: None,
            duration: 900_000_000_000,
            buy_out_price: Some(10_000_000_000),
            origins: Some(origins.clone()),
        });
        match market
            .nft_on_approve(
                token_id,
                "user1".to_string(),
                i as u64,
                args,
                "nft".to_string(),
                "user1".to_string(),
                NOW,
            )
            .unwrap()
        {
            ApproveOutcome::Auction(id, _) => assert_eq!(id, (i - 1) as u128),
            _ => panic!("expected an auction"),
        }
    }

    market.cancel_auction(0, "user1".to_string(), 1).unwrap();

    let time_during_bid = NOW + 1;
    market
        .auction_add_bid(
            1,
            Some("near".to_string()),
            None,
            "user2".to_string(),
            10_400,
            time_during_bid,
        )
        .unwrap();
    let res = market.finish_auction(1, time_during_bid + 1, &"market".to_string());
    let err = res.unwrap_err();
    assert_eq!(err, MarketError::AuctionNotFinished);
    assert!(err.message().contains("Auction can be finalized only after the end time"));
    let auction_json = market.get_auction(1).unwrap();
    assert_eq!(auction_json.end - time_during_bid, EXTENSION_DURATION);
    market
        .finish_auction(1, auction_json.end + 1, &"market".to_string())
        .unwrap();
}
