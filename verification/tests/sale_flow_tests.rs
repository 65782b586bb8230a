//! End-to-end sale flows: instant buy with settlement, the bid ledger's
//! eviction behaviour, and removal with refunds.
use nft_bid_market::common::MarketError;
use nft_bid_market::fee::calculate_price_with_fees;
use nft_bid_market::market_core::{
    ApproveOutcome, ArgsKind, NonFungibleTokenApprovalReceiver, SaleArgs,
};
use nft_bid_market::sale::{OfferOutcome, Payout};
use nft_bid_market::{Market, STORAGE_PER_SALE};

const NOW: u64 = 1_000_000_000_000;

fn market_with_sale(price: u128) -> Market {
    let mut m = Market::new(vec!["nft".to_string()], "market_owner".to_string());
    m.storage_deposit(None, "seller".to_string(), STORAGE_PER_SALE).unwrap();
    let args = ArgsKind::Sale(SaleArgs {
        sale_conditions: vec![("near".to_string(), price)],
        token_type: None,
        start: None,
        end: None,
        origins: None,
    });
    let outcome = m
        .nft_on_approve(
            "1:1".to_string(),
            "seller".to_string(),
            1,
            args,
            "nft".to_string(),
            "seller".to_string(),
            NOW,
        )
        .unwrap();
    match outcome {
        ApproveOutcome::Sale(json) => {
            assert_eq!(json.owner_id, "seller");
            assert_eq!(json.bids.len(), 0);
        },
        _ => panic!("expected a sale"),
    }
    m
}

#[test]
fn instant_buy_settles_and_removes_the_sale() {
    // A sale listed at 10_000 units; the buyer attaches exactly the
    // fee-inclusive price and the trade settles.
    let mut m = market_with_sale(10_000);
    let gross = calculate_price_with_fees(10_000, None).unwrap();
    assert_eq!(gross, 10_300);
    let outcome = m
        .offer(
            "nft".to_string(),
            "1:1".to_string(),
            "near".to_string(),
            None,
            None,
            None,
            "buyer".to_string(),
            gross,
            NOW + 1,
            &"market".to_string(),
        )
        .unwrap();
    let (request, sale) = match outcome {
        OfferOutcome::Purchase { request, sale } => (request, sale),
        _ => panic!("expected a purchase"),
    };
    assert_eq!(request.receiver_id, "buyer");
    assert_eq!(request.price, 10_300);
    assert_eq!(request.max_len_payout, 10);
    // The protocol-fee entry was added to both fee maps.
    assert!(request.fees.buyer.iter().any(|e| e.0 == "market" && e.1 == 300));
    assert!(request.fees.seller.iter().any(|e| e.0 == "market" && e.1 == 300));
    // The sale is gone.
    assert!(m.get_sale("nft".to_string(), "1:1".to_string()).is_none());
    assert_eq!(m.get_supply_sales(), 0);

    // The token contract reports: seller net 10_000 minus a 5% royalty of
    // 515 to the creator and the protocol fee 309 to the market; the one
    // remaining unit is rounding slack.
    let payout = Payout {
        payout: vec![
            ("seller".to_string(), 9_475u128),
            ("creator".to_string(), 515u128),
            ("market".to_string(), 309u128),
        ],
    };
    let (balance, transfers) = m.resolve_purchase(
        "near".to_string(),
        "buyer".to_string(),
        sale,
        10_300,
        Some(payout),
    );
    assert_eq!(balance, 10_300);
    let total: u128 = transfers.iter().map(|t| t.amount).sum();
    assert_eq!(total + 1, 10_300);
    assert_eq!(transfers.len(), 3);
    assert!(transfers.iter().any(|t| t.receiver_id == "seller" && t.amount == 9_475));
    assert!(transfers.iter().any(|t| t.receiver_id == "creator" && t.amount == 515));
    assert!(transfers.iter().any(|t| t.receiver_id == "market" && t.amount == 309));
}

#[test]
fn failed_transfer_refunds_the_buyer_in_full() {
    // The async transfer failed: the buyer's whole payment comes back and
    // nothing is disbursed.
    let mut m = market_with_sale(10_000);
    let outcome = m
        .offer(
            "nft".to_string(),
            "1:1".to_string(),
            "near".to_string(),
            None,
            None,
            None,
            "buyer".to_string(),
            10_300,
            NOW + 1,
            &"market".to_string(),
        )
        .unwrap();
    let sale = match outcome {
        OfferOutcome::Purchase { sale, .. } => sale,
        _ => panic!("expected a purchase"),
    };
    let (balance, transfers) =
        m.resolve_purchase("near".to_string(), "buyer".to_string(), sale, 10_300, None);
    assert_eq!(balance, 10_300);
    assert_eq!(transfers.len(), 1);
    assert_eq!(transfers[0].receiver_id, "buyer");
    assert_eq!(transfers[0].amount, 10_300);
    assert_eq!(transfers[0].ft_token_id, "near");
}

#[test]
fn overfull_or_short_payouts_are_rejected() {
    // A payout leaving more than one unit unaccounted for resolves to a
    // refund, as does one overshooting the price.
    let mut m = market_with_sale(10_000);
    let outcome = m
        .offer(
            "nft".to_string(),
            "1:1".to_string(),
            "near".to_string(),
            None,
            None,
            None,
            "buyer".to_string(),
            10_300,
            NOW + 1,
            &"market".to_string(),
        )
        .unwrap();
    let sale = match outcome {
        OfferOutcome::Purchase { sale, .. } => sale,
        _ => panic!("expected a purchase"),
    };
    let short = Payout { payout: vec![("seller".to_string(), 10_298u128)] };
    let (balance, transfers) =
        m.resolve_purchase("near".to_string(), "buyer".to_string(), sale, 10_300, Some(short));
    assert_eq!(balance, 10_300);
    assert_eq!(transfers.len(), 1);
    assert_eq!(transfers[0].receiver_id, "buyer");
    assert_eq!(transfers[0].amount, 10_300);
}

#[test]
fn six_bids_evict_the_oldest_with_a_refund() {
    // A history cap of five: the sixth bid pushes the first out, whose
    // owner is refunded its stored gross price.
    let mut m = market_with_sale(1_000_000);
    let mut refunds = Vec::new();
    for i in 0..6u32 {
        let bidder = format!("bidder{}", i);
        let amount = 10_000u128 + (i as u128) * 1_000;
        let outcome = m
            .offer(
                "nft".to_string(),
                "1:1".to_string(),
                "near".to_string(),
                None,
                None,
                None,
                bidder,
                amount,
                NOW + 1,
                &"market".to_string(),
            )
            .unwrap();
        match outcome {
            OfferOutcome::BidAdded { refund } => {
                if let Some(r) = refund {
                    refunds.push(r);
                }
            },
            _ => panic!("expected a bid"),
        }
    }
    // Exactly one eviction: the very first bid, at its gross price.
    assert_eq!(refunds.len(), 1);
    assert_eq!(refunds[0].receiver_id, "bidder0");
    assert_eq!(refunds[0].amount, 10_000);
    assert_eq!(refunds[0].ft_token_id, "near");
    // The five most recent bids remain, newest last.
    let json = m.get_sale("nft".to_string(), "1:1".to_string()).unwrap();
    assert_eq!(json.bids.len(), 1);
    let bucket = &json.bids[0].1;
    assert_eq!(bucket.len(), 5);
    for (i, b) in bucket.iter().enumerate() {
        assert_eq!(b.owner_id, format!("bidder{}", i + 1));
        assert_eq!(b.price, 10_000 + ((i as u128) + 1) * 1_000);
    }
}

#[test]
fn equal_or_lower_bids_are_rejected_and_change_nothing() {
    let mut m = market_with_sale(1_000_000);
    let offer = |m: &mut Market, who: &str, amount: u128| {
        m.offer(
            "nft".to_string(),
            "1:1".to_string(),
            "near".to_string(),
            None,
            None,
            None,
            who.to_string(),
            amount,
            NOW + 1,
            &"market".to_string(),
        )
    };
    offer(&mut m, "alice", 10_000).unwrap();
    // The same actual amount is a tie: rejected.
    let r = offer(&mut m, "bob", 10_000);
    assert_eq!(r.unwrap_err(), MarketError::BidTooLow);
    // A lower amount too.
    let r = offer(&mut m, "bob", 9_999);
    assert_eq!(r.unwrap_err(), MarketError::BidTooLow);
    // Storage unchanged: still one bid by alice.
    let json = m.get_sale("nft".to_string(), "1:1".to_string()).unwrap();
    assert_eq!(json.bids[0].1.len(), 1);
    assert_eq!(json.bids[0].1[0].owner_id, "alice");
}

#[test]
fn accept_offer_settles_with_the_latest_bid() {
    let mut m = market_with_sale(1_000_000);
    for (who, amount) in [("alice", 10_000u128), ("bob", 20_000u128)] {
        m.offer(
            "nft".to_string(),
            "1:1".to_string(),
            "near".to_string(),
            None,
            None,
            None,
            who.to_string(),
            amount,
            NOW + 1,
            &"market".to_string(),
        )
        .unwrap();
    }
    // A stranger may not accept; the owner may, already at the instant the
    // latest bid's validity window opens.
    let r = m.accept_offer(
        "nft".to_string(),
        "1:1".to_string(),
        "near".to_string(),
        "mallory".to_string(),
        NOW + 2,
        &"market".to_string(),
    );
    assert_eq!(r.unwrap_err(), MarketError::NotOwner);
    let (request, sale_ctx) = m
        .accept_offer(
            "nft".to_string(),
            "1:1".to_string(),
            "near".to_string(),
            "seller".to_string(),
            NOW + 1,
            &"market".to_string(),
        )
        .unwrap();
    assert_eq!(request.receiver_id, "bob");
    assert_eq!(request.price, 20_000);
    // The remaining bid (alice's) is refunded at settlement.
    let (_, transfers) = m.resolve_purchase(
        "near".to_string(),
        "bob".to_string(),
        sale_ctx,
        20_000,
        Some(Payout { payout: vec![("seller".to_string(), 20_000u128)] }),
    );
    assert!(transfers.iter().any(|t| t.receiver_id == "alice" && t.amount == 10_000));
    assert!(transfers.iter().any(|t| t.receiver_id == "seller" && t.amount == 20_000));
}

#[test]
fn remove_sale_refunds_every_outstanding_bid() {
    let mut m = market_with_sale(1_000_000);
    for (who, amount) in [("alice", 10_000u128), ("bob", 20_000u128)] {
        m.offer(
            "nft".to_string(),
            "1:1".to_string(),
            "near".to_string(),
            None,
            None,
            None,
            who.to_string(),
            amount,
            NOW + 1,
            &"market".to_string(),
        )
        .unwrap();
    }
    let transfers = m
        .remove_sale(
            "nft".to_string(),
            "1:1".to_string(),
            "seller".to_string(),
            1,
            NOW + 2,
        )
        .unwrap();
    assert_eq!(transfers.len(), 2);
    assert!(transfers.iter().any(|t| t.receiver_id == "alice" && t.amount == 10_000));
    assert!(transfers.iter().any(|t| t.receiver_id == "bob" && t.amount == 20_000));
    assert!(m.get_sale("nft".to_string(), "1:1".to_string()).is_none());
}

#[test]
fn update_price_changes_only_the_price() {
    let mut m = market_with_sale(10_000);
    m.update_price(
        "nft".to_string(),
        "1:1".to_string(),
        "near".to_string(),
        42_000,
        "seller".to_string(),
        1,
    )
    .unwrap();
    let json = m.get_sale("nft".to_string(), "1:1".to_string()).unwrap();
    assert_eq!(json.sale_conditions[0].1, 42_000);
    // Not the owner: rejected.
    let r = m.update_price(
        "nft".to_string(),
        "1:1".to_string(),
        "near".to_string(),
        1,
        "mallory".to_string(),
        1,
    );
    assert_eq!(r.unwrap_err(), MarketError::NotOwner);
}
