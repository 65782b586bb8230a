//! Market state plumbing: construction, storage accounting, bid
//! withdrawal, expiry handling, and the directory views.
use nft_bid_market::common::MarketError;
use nft_bid_market::market_core::{
    ApproveOutcome, ArgsKind, NonFungibleTokenApprovalReceiver, SaleArgs,
};
use nft_bid_market::{Market, STORAGE_PER_SALE};

const NOW: u64 = 1_000_000_000_000;

fn fresh() -> Market {
    Market::new(vec!["nft".to_string()], "market_owner".to_string())
}

fn open_sale(m: &mut Market, token: &str, seller: &str, token_type: Option<String>) {
    m.storage_deposit(None, seller.to_string(), STORAGE_PER_SALE).unwrap();
    let args = ArgsKind::Sale(SaleArgs {
        sale_conditions: vec![("near".to_string(), 10_000)],
        token_type,
        start: None,
        end: None,
        origins: None,
    });
    match m
        .nft_on_approve(
            token.to_string(),
            seller.to_string(),
            1,
            args,
            "nft".to_string(),
            seller.to_string(),
            NOW,
        )
        .unwrap()
    {
        ApproveOutcome::Sale(_) => {},
        _ => panic!("expected a sale"),
    }
}

#[test]
fn new_market_supports_only_the_native_currency() {
    let m = fresh();
    assert_eq!(m.storage_amount(), STORAGE_PER_SALE);
    assert_eq!(m.get_supply_sales(), 0);
    assert_eq!(m.market.ft_token_ids.len(), 1);
    assert_eq!(m.market.ft_token_ids[0], "near");
    assert_eq!(m.market.bid_history_length, 5);
}

#[test]
fn storage_deposit_gates_listing() {
    let mut m = fresh();
    // Too small a deposit.
    let r = m.storage_deposit(None, "seller".to_string(), STORAGE_PER_SALE - 1);
    assert_eq!(r.unwrap_err(), MarketError::DepositBelowStorageMinimum);
    // Without any prepaid storage the approval is rejected.
    let args = ArgsKind::Sale(SaleArgs {
        sale_conditions: vec![("near".to_string(), 10_000)],
        token_type: None,
        start: None,
        end: None,
        origins: None,
    });
    let r = m.nft_on_approve(
        "1:1".to_string(),
        "seller".to_string(),
        1,
        args,
        "nft".to_string(),
        "seller".to_string(),
        NOW,
    );
    assert_eq!(r.unwrap_err(), MarketError::InsufficientStorage);
}

#[test]
fn storage_withdraw_returns_the_unused_balance() {
    let mut m = fresh();
    m.storage_deposit(None, "seller".to_string(), 3 * STORAGE_PER_SALE).unwrap();
    open_sale(&mut m, "1:1", "seller", None);
    // Four slots are prepaid in all (the listing helper adds one); the one
    // open sale keeps one slot of rent and the other three come back.
    let tr = m.storage_withdraw("seller".to_string(), 1).unwrap().unwrap();
    assert_eq!(tr.receiver_id, "seller");
    assert_eq!(tr.amount, 3 * STORAGE_PER_SALE);
    // A second withdraw finds nothing free.
    let r = m.storage_withdraw("seller".to_string(), 1).unwrap();
    assert!(r.is_none());
    // The yocto guard.
    let r = m.storage_withdraw("seller".to_string(), 0);
    assert_eq!(r.unwrap_err(), MarketError::NotOneYocto);
}

#[test]
fn approval_guards() {
    let mut m = fresh();
    m.storage_deposit(None, "seller".to_string(), STORAGE_PER_SALE).unwrap();
    let args = || {
        ArgsKind::Sale(SaleArgs {
            sale_conditions: vec![("near".to_string(), 10_000)],
            token_type: None,
            start: None,
            end: None,
            origins: None,
        })
    };
    // A direct call (contract == signer) is refused.
    let r = m.nft_on_approve(
        "1:1".to_string(),
        "seller".to_string(),
        1,
        args(),
        "seller".to_string(),
        "seller".to_string(),
        NOW,
    );
    assert_eq!(r.unwrap_err(), MarketError::DirectApprovalCall);
    // The signer must be the owner.
    let r = m.nft_on_approve(
        "1:1".to_string(),
        "someone_else".to_string(),
        1,
        args(),
        "nft".to_string(),
        "seller".to_string(),
        NOW,
    );
    assert_eq!(r.unwrap_err(), MarketError::ApprovalOwnerMismatch);
    // An unsupported currency in the price table.
    m.storage_deposit(None, "seller".to_string(), STORAGE_PER_SALE).unwrap();
    let bad = ArgsKind::Sale(SaleArgs {
        sale_conditions: vec![("usdt".to_string(), 10_000)],
        token_type: None,
        start: None,
        end: None,
        origins: None,
    });
    let r = m.nft_on_approve(
        "1:1".to_string(),
        "seller".to_string(),
        1,
        bad,
        "nft".to_string(),
        "seller".to_string(),
        NOW,
    );
    assert_eq!(r.unwrap_err(), MarketError::NotSupportedFt);
    // A token type that is not part of the token id.
    let bad = ArgsKind::Sale(SaleArgs {
        sale_conditions: vec![("near".to_string(), 10_000)],
        token_type: Some("9".to_string()),
        start: None,
        end: None,
        origins: None,
    });
    let r = m.nft_on_approve(
        "1:1".to_string(),
        "seller".to_string(),
        1,
        bad,
        "nft".to_string(),
        "seller".to_string(),
        NOW,
    );
    assert_eq!(r.unwrap_err(), MarketError::TokenTypeMismatch);
    // Listing the same token twice is refused.
    open_sale(&mut m, "1:1", "seller", None);
    m.storage_deposit(None, "seller".to_string(), STORAGE_PER_SALE).unwrap();
    let r = m.nft_on_approve(
        "1:1".to_string(),
        "seller".to_string(),
        2,
        args(),
        "nft".to_string(),
        "seller".to_string(),
        NOW,
    );
    assert_eq!(r.unwrap_err(), MarketError::AlreadyExists);
}

#[test]
fn directory_views_track_sales() {
    let mut m = fresh();
    open_sale(&mut m, "1:1", "alice", Some("1".to_string()));
    open_sale(&mut m, "1:2", "alice", Some("1".to_string()));
    open_sale(&mut m, "2:1", "bob", Some("2".to_string()));
    assert_eq!(m.get_supply_sales(), 3);
    assert_eq!(m.get_supply_by_owner_id("alice".to_string()), 2);
    assert_eq!(m.get_supply_by_owner_id("bob".to_string()), 1);
    assert_eq!(m.get_supply_by_owner_id("carol".to_string()), 0);
    assert_eq!(m.get_supply_by_nft_contract_id("nft".to_string()), 3);
    assert_eq!(m.get_supply_by_nft_token_type("1".to_string()), 2);
    assert_eq!(m.get_supply_by_nft_token_type("2".to_string()), 1);
    let alices = m.get_sales_by_owner_id("alice".to_string(), 0, 10);
    assert_eq!(alices.len(), 2);
    assert!(alices.iter().all(|s| s.owner_id == "alice"));
    let page = m.get_sales(None, Some(2));
    assert_eq!(page.len(), 2);
    let rest = m.get_sales(Some(2), None);
    assert_eq!(rest.len(), 1);
    let by_contract = m.get_sales_by_nft_contract_id("nft".to_string(), 1, 10);
    assert_eq!(by_contract.len(), 2);
    let by_type = m.get_sales_by_nft_token_type("2".to_string(), 0, 10);
    assert_eq!(by_type.len(), 1);
    assert_eq!(by_type[0].owner_id, "bob");
    // Removal clears the indices.
    m.remove_sale("nft".to_string(), "1:1".to_string(), "alice".to_string(), 1, NOW + 1).unwrap();
    assert_eq!(m.get_supply_by_owner_id("alice".to_string()), 1);
    assert_eq!(m.get_supply_by_nft_token_type("1".to_string()), 1);
}

#[test]
fn remove_and_cancel_bids() {
    let mut m = fresh();
    open_sale(&mut m, "1:1", "seller", None);
    // A bid with a validity window of 1000 time units.
    m.offer(
        "nft".to_string(),
        "1:1".to_string(),
        "near".to_string(),
        None,
        Some(1_000),
        None,
        "alice".to_string(),
        10_000,
        NOW + 1,
        &"market".to_string(),
    )
    .unwrap();
    // A stranger's cancel before the window ends is refused.
    let r = m.cancel_bid(
        "nft".to_string(),
        "1:1".to_string(),
        "near".to_string(),
        "alice".to_string(),
        10_000,
        NOW + 2,
    );
    assert_eq!(r.unwrap_err(), MarketError::BidNotEnded);
    // After the window the bid can be cancelled with a refund.
    let tr = m
        .cancel_bid(
            "nft".to_string(),
            "1:1".to_string(),
            "near".to_string(),
            "alice".to_string(),
            10_000,
            NOW + 1 + 1_000,
        )
        .unwrap();
    assert_eq!(tr.receiver_id, "alice");
    assert_eq!(tr.amount, 10_000);
    // The bucket is gone.
    let json = m.get_sale("nft".to_string(), "1:1".to_string()).unwrap();
    assert_eq!(json.bids.len(), 0);
    // remove_bid lets the owner pull their own bid at any time.
    m.offer(
        "nft".to_string(),
        "1:1".to_string(),
        "near".to_string(),
        None,
        None,
        None,
        "bob".to_string(),
        11_000,
        NOW + 2,
        &"market".to_string(),
    )
    .unwrap();
    let tr = m
        .remove_bid(
            "nft".to_string(),
            "1:1".to_string(),
            "near".to_string(),
            11_000,
            "bob".to_string(),
            1,
        )
        .unwrap();
    assert_eq!(tr.receiver_id, "bob");
    assert_eq!(tr.amount, 11_000);
    // Pulling it twice fails.
    let r = m.remove_bid(
        "nft".to_string(),
        "1:1".to_string(),
        "near".to_string(),
        11_000,
        "bob".to_string(),
        1,
    );
    assert_eq!(r.unwrap_err(), MarketError::NoBids);
}

#[test]
fn cancel_expired_bids_keeps_the_valid_ones() {
    let mut m = fresh();
    open_sale(&mut m, "1:1", "seller", None);
    // One bid expiring soon, one open-ended.
    m.offer(
        "nft".to_string(),
        "1:1".to_string(),
        "near".to_string(),
        None,
        Some(100),
        None,
        "alice".to_string(),
        10_000,
        NOW + 1,
        &"market".to_string(),
    )
    .unwrap();
    m.offer(
        "nft".to_string(),
        "1:1".to_string(),
        "near".to_string(),
        None,
        None,
        None,
        "bob".to_string(),
        20_000,
        NOW + 2,
        &"market".to_string(),
    )
    .unwrap();
    let refunds = m
        .cancel_expired_bids("nft".to_string(), "1:1".to_string(), "near".to_string(), NOW + 500)
        .unwrap();
    assert_eq!(refunds.len(), 1);
    assert_eq!(refunds[0].receiver_id, "alice");
    assert_eq!(refunds[0].amount, 10_000);
    let json = m.get_sale("nft".to_string(), "1:1".to_string()).unwrap();
    assert_eq!(json.bids[0].1.len(), 1);
    assert_eq!(json.bids[0].1[0].owner_id, "bob");
}

#[test]
fn sale_error_paths() {
    let mut m = fresh();
    // No sale at all.
    let r = m.offer(
        "nft".to_string(),
        "1:1".to_string(),
        "near".to_string(),
        None,
        None,
        None,
        "buyer".to_string(),
        10,
        NOW,
        &"market".to_string(),
    );
    assert_eq!(r.unwrap_err(), MarketError::NoSale);
    open_sale(&mut m, "1:1", "seller", None);
    // The owner cannot bid.
    let r = m.offer(
        "nft".to_string(),
        "1:1".to_string(),
        "near".to_string(),
        None,
        None,
        None,
        "seller".to_string(),
        10,
        NOW + 1,
        &"market".to_string(),
    );
    assert_eq!(r.unwrap_err(), MarketError::OwnerCannotBid);
    // A zero payment.
    let r = m.offer(
        "nft".to_string(),
        "1:1".to_string(),
        "near".to_string(),
        None,
        None,
        None,
        "buyer".to_string(),
        0,
        NOW + 1,
        &"market".to_string(),
    );
    assert_eq!(r.unwrap_err(), MarketError::ZeroDeposit);
    // An unsupported currency at offer time.
    let r = m.offer(
        "nft".to_string(),
        "1:1".to_string(),
        "usdt".to_string(),
        None,
        None,
        None,
        "buyer".to_string(),
        10,
        NOW + 1,
        &"market".to_string(),
    );
    assert_eq!(r.unwrap_err(), MarketError::NotSupportedFt);
    // Out of the availability window after a forced finish.
    m.hack_finish_sale("nft||1:1".to_string(), NOW + 5).unwrap();
    let r = m.offer(
        "nft".to_string(),
        "1:1".to_string(),
        "near".to_string(),
        None,
        None,
        None,
        "buyer".to_string(),
        10,
        NOW + 10,
        &"market".to_string(),
    );
    assert_eq!(r.unwrap_err(), MarketError::SaleNotInProgress);
    // Accepting without bids (inside the window, which ends at NOW + 5).
    let r = m.accept_offer(
        "nft".to_string(),
        "1:1".to_string(),
        "near".to_string(),
        "seller".to_string(),
        NOW + 1,
        &"market".to_string(),
    );
    assert_eq!(r.unwrap_err(), MarketError::NoBids);
    // The fee-share cap.
    let mut m2 = fresh();
    open_sale(&mut m2, "1:1", "seller", None);
    let heavy = vec![("greedy".to_string(), 4_700u32)];
    let r = m2.offer(
        "nft".to_string(),
        "1:1".to_string(),
        "near".to_string(),
        None,
        None,
        Some(heavy),
        "buyer".to_string(),
        10_000,
        NOW + 1,
        &"market".to_string(),
    );
    assert_eq!(r.unwrap_err(), MarketError::MaxOriginsExceeded);
}

#[test]
fn hack_finish_bid_ends_the_latest_native_bid() {
    let mut m = fresh();
    open_sale(&mut m, "1:1", "seller", None);
    m.offer(
        "nft".to_string(),
        "1:1".to_string(),
        "near".to_string(),
        None,
        None,
        None,
        "alice".to_string(),
        10_000,
        NOW + 1,
        &"market".to_string(),
    )
    .unwrap();
    m.hack_finish_bid("nft||1:1".to_string(), NOW + 2).unwrap();
    let json = m.get_sale("nft".to_string(), "1:1".to_string()).unwrap();
    assert_eq!(json.bids[0].1[0].end, Some(NOW + 2));
    // The expired bid now blocks accept_offer.
    let r = m.accept_offer(
        "nft".to_string(),
        "1:1".to_string(),
        "near".to_string(),
        "seller".to_string(),
        NOW + 3,
        &"market".to_string(),
    );
    assert_eq!(r.unwrap_err(), MarketError::BidOutOfLimits);
}

#[test]
fn resolve_token_buy_disburses_or_refunds() {
    let m = fresh();
    let payout = nft_bid_market::sale::Payout {
        payout: vec![("seller".to_string(), 9_999u128)],
    };
    let (balance, transfers) =
        m.resolve_token_buy("buyer".to_string(), 10_000, 10_000, Some(payout));
    assert_eq!(balance, 10_000);
    assert_eq!(transfers.len(), 1);
    assert_eq!(transfers[0].receiver_id, "seller");
    let (balance, transfers) = m.resolve_token_buy("buyer".to_string(), 10_000, 10_000, None);
    assert_eq!(balance, 10_000);
    assert_eq!(transfers[0].receiver_id, "buyer");
    assert_eq!(transfers[0].amount, 10_000);
}

#[test]
fn error_messages_are_human_readable() {
    assert_eq!(MarketError::NoSale.message(), "No sale");
    assert_eq!(
        MarketError::BidTooLow.message(),
        "Can't pay less than or equal to current bid price"
    );
    assert_eq!(
        MarketError::SaleNotInProgress.message(),
        "Either the sale is finished or it hasn't started yet"
    );
}

#[test]
fn fungible_currency_settlement_keeps_no_balance() {
    // In a fungible currency the payouts go out as explicit transfer
    // instructions and the resolver reports a zero leftover; a failure
    // leaves the full price to the currency's own refund path.
    let m = fresh();
    let sale = nft_bid_market::sale::Sale {
        owner_id: "seller".to_string(),
        approval_id: 1,
        nft_contract_id: "nft".to_string(),
        token_id: "1:1".to_string(),
        sale_conditions: vec![("usdt".to_string(), 10_000)],
        bids: Vec::new(),
        created_at: 0,
        token_type: None,
        start: None,
        end: None,
        origins: Vec::new(),
    };
    let payout = nft_bid_market::sale::Payout {
        payout: vec![("seller".to_string(), 10_000u128)],
    };
    let (balance, transfers) = m.resolve_purchase(
        "usdt".to_string(),
        "buyer".to_string(),
        sale,
        10_000,
        Some(payout),
    );
    assert_eq!(balance, 0);
    assert_eq!(transfers.len(), 1);
    assert_eq!(transfers[0].ft_token_id, "usdt");
    assert_eq!(transfers[0].receiver_id, "seller");
    let sale2 = nft_bid_market::sale::Sale {
        owner_id: "seller".to_string(),
        approval_id: 1,
        nft_contract_id: "nft".to_string(),
        token_id: "1:1".to_string(),
        sale_conditions: vec![("usdt".to_string(), 10_000)],
        bids: Vec::new(),
        created_at: 0,
        token_type: None,
        start: None,
        end: None,
        origins: Vec::new(),
    };
    let (balance, transfers) =
        m.resolve_purchase("usdt".to_string(), "buyer".to_string(), sale2, 10_000, None);
    assert_eq!(balance, 10_000);
    assert_eq!(transfers.len(), 0);
}

#[test]
fn windows_are_half_open() {
    // A sale opened at NOW (start defaults to now) already takes offers at
    // that very instant.
    let mut m = fresh();
    open_sale(&mut m, "1:1", "seller", None);
    m.offer(
        "nft".to_string(),
        "1:1".to_string(),
        "near".to_string(),
        None,
        None,
        None,
        "alice".to_string(),
        10_000,
        NOW,
        &"market".to_string(),
    )
    .unwrap();
    // A bid placed at NOW is actionable at NOW: the owner can accept it at
    // the same instant.
    let (request, _) = m
        .accept_offer(
            "nft".to_string(),
            "1:1".to_string(),
            "near".to_string(),
            "seller".to_string(),
            NOW,
            &"market".to_string(),
        )
        .unwrap();
    assert_eq!(request.receiver_id, "alice");
    // A sale whose window was forced to end at NOW + 5 no longer takes
    // offers at exactly that instant.
    let mut m2 = fresh();
    open_sale(&mut m2, "1:1", "seller", None);
    m2.hack_finish_sale("nft||1:1".to_string(), NOW + 5).unwrap();
    let r = m2.offer(
        "nft".to_string(),
        "1:1".to_string(),
        "near".to_string(),
        None,
        None,
        None,
        "alice".to_string(),
        10_000,
        NOW + 5,
        &"market".to_string(),
    );
    assert_eq!(r.unwrap_err(), MarketError::SaleNotInProgress);
}
