//! Timed English auctions: the record, its views, the anti-snipe extension
//! rule and the buyout rule.
use vstd::prelude::*;

use crate::bid::Bid;
use crate::common::{AccountId, FungibleTokenId, Origins, TokenId, NANOS_PER_SEC};

verus! {

/// A late bid pushes the auction end at least this far past now (anti-snipe
/// "soft close"): 15 minutes.
pub const EXTENSION_DURATION: u64 = 15 * 60 * NANOS_PER_SEC;

/// Longest allowed auction: 1000 days.
pub const MAX_DURATION: u64 = 1000 * 60 * 60 * 24 * NANOS_PER_SEC;

/// A single-item auction with at most one live bid.
#[derive(Debug)]
pub struct Auction {
    pub owner_id: AccountId,
    pub approval_id: u64,
    pub nft_contract_id: AccountId,
    pub token_id: TokenId,
    pub bid: Option<Bid>,
    pub created_at: u64,
    pub ft_token_id: FungibleTokenId,
    pub minimal_step: u128,
    pub start_price: u128,
    pub buy_out_price: Option<u128>,
    pub start: u64,
    pub end: u64,
    pub origins: Origins,
}

/// Read-only view of an auction returned by the query surface.
#[derive(Debug)]
pub struct AuctionJson {
    pub owner_id: AccountId,
    pub nft_contract_id: AccountId,
    pub token_id: TokenId,
    pub bid: Option<Bid>,
    pub created_at: u64,
    pub ft_token_id: FungibleTokenId,
    pub minimal_step: u128,
    pub start_price: u128,
    pub buy_out_price: Option<u128>,
    pub start: u64,
    pub end: u64,
}

/// Auction well-formedness: the window is ordered and a live bid's
/// fee-share total fits the weight type (an auction does not cap the total;
/// reads of the bid re-check the fee arithmetic).
pub open spec fn auction_wf(a: Auction) -> bool {
    &&& a.start <= a.end
    &&& match a.bid {
        Some(b) => 0 <= crate::bid::spec_bid_total(b) <= u32::MAX,
        None => true,
    }
}

/// The auction accepts bids at time `now`: its window is half-open,
/// `[start, end)`, so bids are accepted from the start and no longer at the
/// end.
pub open spec fn spec_auction_in_progress(a: Auction, now: u64) -> bool {
    a.start <= now && now < a.end
}

/// Once the end is forced to `now` (buyout), the auction is out of progress
/// at that very time and at every later one.
pub proof fn lemma_buyout_closes(a: Auction, now: u64)
    requires
        a.end == now,
    ensures
        forall|t: u64| t >= now ==> !spec_auction_in_progress(a, t),
{
}

/// Everything but the auctions table and the next auction id is unchanged.
pub open spec fn same_but_auctions(a: crate::Market, b: crate::Market) -> bool {
    &&& a.non_fungible_token_account_ids == b.non_fungible_token_account_ids
    &&& a.market.owner_id == b.market.owner_id
    &&& a.market.sales == b.market.sales
    &&& a.market.by_owner_id == b.market.by_owner_id
    &&& a.market.by_nft_contract_id == b.market.by_nft_contract_id
    &&& a.market.by_nft_token_type == b.market.by_nft_token_type
    &&& a.market.ft_token_ids == b.market.ft_token_ids
    &&& a.market.storage_deposits == b.market.storage_deposits
    &&& a.market.bid_history_length == b.market.bid_history_length
}

/// The smallest fee-exclusive amount the next bid must reach: the current
/// bid's actual amount plus the minimal step, or the start price before any
/// bid.
pub open spec fn spec_min_next_bid(a: Auction) -> int {
    match a.bid {
        Some(b) => crate::bid::spec_bid_actual(b) + a.minimal_step,
        None => a.start_price as int,
    }
}

/// The currency a token-type argument selects: the named fungible-token
/// account, or the native currency when absent.
pub open spec fn spec_token_type_ft(tt: crate::common::TokenType) -> Seq<char> {
    match tt {
        Some(s) => s@,
        None => "near"@,
    }
}

/// The view mirrors the auction field by field (a live bid compared field
/// by field as well).
pub open spec fn auction_json_like(j: AuctionJson, a: Auction) -> bool {
    &&& j.owner_id@ == a.owner_id@
    &&& j.nft_contract_id@ == a.nft_contract_id@
    &&& j.token_id@ == a.token_id@
    &&& (j.bid is Some <==> a.bid is Some)
    &&& (a.bid is Some ==> crate::bid::bid_like(j.bid->0, a.bid->0))
    &&& j.created_at == a.created_at
    &&& j.ft_token_id@ == a.ft_token_id@
    &&& j.minimal_step == a.minimal_step
    &&& j.start_price == a.start_price
    &&& j.buy_out_price == a.buy_out_price
    &&& j.start == a.start
    &&& j.end == a.end
}

/// What opening an auction did, or why it was rejected. On success the
/// auction stands under the next free id with no bid, and the returned view
/// mirrors it; on a rejection nothing changed.
pub open spec fn auction_started_post(
    pre: crate::Market,
    post: crate::Market,
    args: crate::market_core::AuctionArgs,
    token_id: TokenId,
    owner_id: AccountId,
    approval_id: u64,
    nft_contract_id: AccountId,
    now: u64,
    r: Result<(u128, AuctionJson), crate::common::MarketError>,
) -> bool {

                let am = pre.market.auctions_map();
                let dur_ok = EXTENSION_DURATION <= args.duration <= MAX_DURATION;
                let supported = pre.market.supports_ft(spec_token_type_ft(args.token_type));
                let start1: u64 = if args.start is Some {
                    args.start->0
                } else {
                    now
                };
                let start_ok = start1 >= now;
                let end_fits = start1 + args.duration <= u64::MAX;
                let id_fits = pre.market.next_auction_id < u128::MAX;
                match r {
                    Ok((id, json)) => {
                        &&& same_but_auctions(post, pre)
                        &&& dur_ok
                        &&& supported
                        &&& start_ok
                        &&& end_fits
                        &&& id_fits
                        &&& id == pre.market.next_auction_id
                        &&& post.market.next_auction_id == pre.market.next_auction_id + 1
                        &&& post.market.auctions_map().dom() == am.dom().insert(id)
                        &&& forall|x: u128|
                            am.dom().contains(x) && x != id ==> post.market.auctions_map()[x] == am[x]
                        &&& ({
                            let a1 = post.market.auctions_map()[id];
                            &&& a1.owner_id == owner_id
                            &&& a1.approval_id == approval_id
                            &&& a1.nft_contract_id == nft_contract_id
                            &&& a1.token_id == token_id
                            &&& a1.bid is None
                            &&& a1.created_at == now
                            &&& a1.ft_token_id@ == spec_token_type_ft(args.token_type)
                            &&& a1.minimal_step == args.minimal_step
                            &&& a1.start_price == args.start_price
                            &&& a1.buy_out_price == args.buy_out_price
                            &&& a1.start == start1
                            &&& a1.end == start1 + args.duration
                        })
                        &&& json.owner_id@ == owner_id@
                        &&& json.token_id@ == token_id@
                        &&& json.bid is None
                        &&& json.start == start1
                        &&& json.end == start1 + args.duration
                        &&& json.start_price == args.start_price
                        &&& json.minimal_step == args.minimal_step
                        &&& json.buy_out_price == args.buy_out_price
                    },
                    Err(e) => {
                        &&& post == pre
                        &&& (e == crate::common::MarketError::IncorrectDuration <==> !dur_ok)
                        &&& (e == crate::common::MarketError::NotSupportedFt <==> dur_ok
                            && !supported)
                        &&& (e == crate::common::MarketError::IncorrectStartTime <==> dur_ok
                            && supported && !start_ok)
                        &&& (e == crate::common::MarketError::Overflow <==> dur_ok && supported
                            && start_ok && (!end_fits || (end_fits && !id_fits)))
                        &&& (e == crate::common::MarketError::IncorrectDuration || e
                            == crate::common::MarketError::NotSupportedFt || e
                            == crate::common::MarketError::IncorrectStartTime || e
                            == crate::common::MarketError::Overflow)
                    },
                }
            
}

impl crate::Market {
    /// Resolves a token-type argument to a supported currency: the named
    /// account, or `"near"` when absent. Fails when the market does not
    /// support it.
    pub fn token_type_to_ft_token_type(&self, token_type: crate::common::TokenType) -> (r: Result<
        FungibleTokenId,
        crate::common::MarketError,
    >)
        ensures
            match r {
                Ok(ft) => ft@ == spec_token_type_ft(token_type) && self.market.supports_ft(ft@),
                Err(e) => e == crate::common::MarketError::NotSupportedFt
                    && !self.market.supports_ft(spec_token_type_ft(token_type)),
            },
    {
        let ft: FungibleTokenId = match token_type {
            Some(tt) => tt,
            None => "near".to_owned(),
        };
        if !crate::table::set_contains(&self.market.ft_token_ids, &ft) {
            return Err(crate::common::MarketError::NotSupportedFt);
        }
        Ok(ft)
    }

    /// Read-only view of an auction.
    pub fn json_from_auction(&self, auction: &Auction) -> (r: AuctionJson)
        ensures
            auction_json_like(r, *auction),
    {
        AuctionJson {
            owner_id: auction.owner_id.clone(),
            nft_contract_id: auction.nft_contract_id.clone(),
            token_id: auction.token_id.clone(),
            bid: match &auction.bid {
                Some(b) => Some(crate::bid::copy_bid(b)),
                None => None,
            },
            created_at: auction.created_at,
            ft_token_id: auction.ft_token_id.clone(),
            minimal_step: auction.minimal_step,
            start_price: auction.start_price,
            buy_out_price: auction.buy_out_price,
            start: auction.start,
            end: auction.end,
        }
    }

    /// Opens an auction from an approval notification: the duration must lie
    /// between the extension window and the maximum, the currency must be
    /// supported, and the start (defaulting to now) must not lie in the
    /// past. The auction gets the next free id.
    pub fn start_auction(
        &mut self,
        args: crate::market_core::AuctionArgs,
        token_id: TokenId,
        owner_id: AccountId,
        approval_id: u64,
        nft_contract_id: AccountId,
        now: u64,
    ) -> (r: Result<(u128, AuctionJson), crate::common::MarketError>)
        requires
            crate::market_wf(*old(self)),
        ensures
            crate::market_wf(*final(self)),
            auction_started_post(
                *old(self),
                *final(self),
                args,
                token_id,
                owner_id,
                approval_id,
                nft_contract_id,
                now,
                r,
            ),
    {
        if !(args.duration >= EXTENSION_DURATION && args.duration <= MAX_DURATION) {
            return Err(crate::common::MarketError::IncorrectDuration);
        }
        let ft_token_id = match self.token_type_to_ft_token_type(args.token_type) {
            Ok(ft) => ft,
            Err(e) => {
                return Err(e);
            },
        };
        let start1: u64 = match args.start {
            Some(s) => s,
            None => now,
        };
        if start1 < now {
            return Err(crate::common::MarketError::IncorrectStartTime);
        }
        let end: u64 = match start1.checked_add(args.duration) {
            Some(e) => e,
            None => {
                return Err(crate::common::MarketError::Overflow);
            },
        };
        let next_id: u128 = match self.market.next_auction_id.checked_add(1) {
            Some(n) => n,
            None => {
                return Err(crate::common::MarketError::Overflow);
            },
        };
        let auction_id = self.market.next_auction_id;
        let origins1: Origins = match args.origins {
            Some(o) => o,
            None => Vec::new(),
        };
        let auction = Auction {
            owner_id,
            approval_id,
            nft_contract_id,
            token_id,
            bid: None,
            created_at: now,
            ft_token_id,
            minimal_step: args.minimal_step,
            start_price: args.start_price,
            buy_out_price: args.buy_out_price,
            start: start1,
            end,
            origins: origins1,
        };
        let json = self.json_from_auction(&auction);
        let ghost preauctions = self.market.auctions@;
        proof {
            crate::table::lemma_u_push(preauctions, (auction_id, auction));
        }
        self.market.auctions.push((auction_id, auction));
        self.market.next_auction_id = next_id;
        proof {
            let news = self.market.auctions@;
            assert forall|a: int|
                0 <= a < news.len() implies auction_wf(#[trigger] news[a].1) && news[a].0
                < self.market.next_auction_id by {
                if a < news.len() - 1 {
                    assert(news[a] == preauctions[a]);
                }
            }
            assert(self.market.auctions_map().dom() =~= old(self).market.auctions_map().dom().insert(auction_id));
            assert(crate::table::u_at(news, auction_id) == auction) by {
                crate::table::lemma_u_at_index(news, news.len() - 1);
            }
        }
        Ok((auction_id, json))
    }

    /// Places a bid on the auction. The attached payment must reach the
    /// fee-inclusive price of the minimal next bid; the previous bid, if
    /// any, is refunded. A payment reaching the fee-inclusive buyout price
    /// forces the end to now; otherwise a bid within the extension window of
    /// the end pushes the end out to now plus the window ("soft close"), so
    /// the end never moves backwards except through a buyout.
    pub fn auction_add_bid(
        &mut self,
        auction_id: u128,
        token_type: crate::common::TokenType,
        origins: Option<Origins>,
        predecessor: AccountId,
        deposit: u128,
        now: u64,
    ) -> (r: Result<Option<crate::common::FundTransfer>, crate::common::MarketError>)
        requires
            crate::market_wf(*old(self)),
        ensures
            crate::market_wf(*final(self)),
            ({
                let am = old(self).market.auctions_map();
                let ftv = spec_token_type_ft(token_type);
                let supported = old(self).market.supports_ft(ftv);
                let exists_a = am.dom().contains(auction_id);
                let a0 = am[auction_id];
                let inprog = exists_a && spec_auction_in_progress(a0, now);
                let notown = supported && inprog && a0.owner_id@ != predecessor@;
                let tw = crate::fee::sum_weights(crate::bid::spec_opt_origins(origins));
                let act_fits = match a0.bid {
                    Some(b) => (b.price as int) * (crate::bid::spec_bid_total(b)
                        + crate::fee::PROTOCOL_FEE as int) <= u128::MAX as int,
                    None => true,
                };
                let min_fits = spec_min_next_bid(a0) <= u128::MAX as int;
                let tw_fits = tw <= u32::MAX;
                let pw_fits = spec_min_next_bid(a0) * (crate::fee::PAYOUT_TOTAL_VALUE as int
                    + crate::fee::PROTOCOL_FEE as int + tw) <= u128::MAX as int;
                let min_deposit = crate::fee::spec_price_with_fees(spec_min_next_bid(a0), tw);
                let enough = deposit >= min_deposit;
                let bo_fits = match a0.buy_out_price {
                    Some(bo) => (bo as int) * (crate::fee::PAYOUT_TOTAL_VALUE as int
                        + crate::fee::PROTOCOL_FEE as int + tw) <= u128::MAX as int,
                    None => true,
                };
                let bought_out = match a0.buy_out_price {
                    Some(bo) => crate::fee::spec_price_with_fees(bo as int, tw) <= deposit,
                    None => false,
                };
                let ext_needed = !bought_out && a0.end - now < EXTENSION_DURATION;
                let ext_fits = !ext_needed || now + EXTENSION_DURATION <= u64::MAX;
                match r {
                    Ok(refund) => {
                        &&& same_but_auctions(*final(self), *old(self))
                        &&& final(self).market.next_auction_id == old(self).market.next_auction_id
                        &&& supported
                        &&& notown
                        &&& act_fits && min_fits && tw_fits && pw_fits && enough && bo_fits
                            && ext_fits
                        &&& final(self).market.auctions_map().dom() == am.dom()
                        &&& forall|x: u128|
                            am.dom().contains(x) && x != auction_id ==> final(self).market.auctions_map()[x] == am[x]
                        &&& ({
                            let a1 = final(self).market.auctions_map()[auction_id];
                            &&& a1.owner_id == a0.owner_id
                            &&& a1.approval_id == a0.approval_id
                            &&& a1.nft_contract_id == a0.nft_contract_id
                            &&& a1.token_id == a0.token_id
                            &&& a1.created_at == a0.created_at
                            &&& a1.ft_token_id == a0.ft_token_id
                            &&& a1.minimal_step == a0.minimal_step
                            &&& a1.start_price == a0.start_price
                            &&& a1.buy_out_price == a0.buy_out_price
                            &&& a1.start == a0.start
                            &&& a1.origins == a0.origins
                            &&& (a1.bid matches Some(nb) && nb.owner_id == predecessor && nb.price
                                == deposit && nb.start == now && nb.end is None && nb.origins@
                                == crate::bid::spec_opt_origins(origins))
                            &&& a1.end == if bought_out {
                                now
                            } else if a0.end - now < EXTENSION_DURATION {
                                (now + EXTENSION_DURATION) as u64
                            } else {
                                a0.end
                            }
                            &&& (!bought_out ==> a1.end >= a0.end)
                            &&& (bought_out ==> a1.end == now)
                        })
                        &&& match a0.bid {
                            Some(prev) => refund matches Some(tr) && tr.ft_token_id@ == ftv
                                && tr.receiver_id == prev.owner_id && tr.amount == prev.price,
                            None => refund is None,
                        }
                    },
                    Err(e) => {
                        &&& *final(self) == *old(self)
                        &&& (e == crate::common::MarketError::NotSupportedFt <==> !supported)
                        &&& (e == crate::common::MarketError::NoAuction <==> supported
                            && !exists_a)
                        &&& (e == crate::common::MarketError::AuctionNotInProgress <==> supported
                            && exists_a && !spec_auction_in_progress(a0, now))
                        &&& (e == crate::common::MarketError::OwnerCannotBid <==> supported
                            && inprog && a0.owner_id@ == predecessor@)
                        &&& (e == crate::common::MarketError::Overflow <==> notown && (!act_fits
                            || (act_fits && !min_fits) || (act_fits && min_fits && !tw_fits) || (
                            act_fits && min_fits && tw_fits && !pw_fits) || (act_fits && min_fits
                            && tw_fits && pw_fits && enough && !bo_fits) || (act_fits && min_fits
                            && tw_fits && pw_fits && enough && bo_fits && !ext_fits)))
                        &&& (e == crate::common::MarketError::DepositTooLow <==> notown
                            && act_fits && min_fits && tw_fits && pw_fits && !enough)
                        &&& (e == crate::common::MarketError::MaxOriginsExceeded ==> false)
                        &&& (e == crate::common::MarketError::NotSupportedFt || e
                            == crate::common::MarketError::NoAuction || e
                            == crate::common::MarketError::AuctionNotInProgress || e
                            == crate::common::MarketError::OwnerCannotBid || e
                            == crate::common::MarketError::Overflow || e
                            == crate::common::MarketError::DepositTooLow)
                    },
                }
            }),
    {
        let ghost pre = *self;
        let ft_token_id = match self.token_type_to_ft_token_type(token_type) {
            Ok(ft) => ft,
            Err(e) => {
                return Err(e);
            },
        };
        let i = match crate::table::u_find(&self.market.auctions, auction_id) {
            Some(i) => i,
            None => {
                return Err(crate::common::MarketError::NoAuction);
            },
        };
        proof {
            crate::table::lemma_u_at_index(self.market.auctions@, i as int);
        }
        if !(self.market.auctions[i].1.start <= now && now < self.market.auctions[i].1.end) {
            return Err(crate::common::MarketError::AuctionNotInProgress);
        }
        if self.market.auctions[i].1.owner_id == predecessor {
            return Err(crate::common::MarketError::OwnerCannotBid);
        }
        let min_next: u128 = match &self.market.auctions[i].1.bid {
            Some(b) => {
                let bt = match crate::fee::calculate_origins(&b.origins) {
                    Ok(t) => t,
                    Err(_) => {
                        proof {
                            crate::fee::lemma_sum_weights_nonneg(b.origins@);
                            assert(false);
                        }
                        return Err(crate::common::MarketError::Overflow);
                    },
                };
                match deposit_actual(b.price, bt) {
                    Some(ba) => match ba.checked_add(self.market.auctions[i].1.minimal_step) {
                        Some(v) => v,
                        None => {
                            return Err(crate::common::MarketError::Overflow);
                        },
                    },
                    None => {
                        return Err(crate::common::MarketError::Overflow);
                    },
                }
            },
            None => self.market.auctions[i].1.start_price,
        };
        let min_deposit = match crate::fee::calculate_price_with_fees(min_next, origins.as_ref()) {
            Ok(v) => v,
            Err(e) => {
                return Err(e);
            },
        };
        if deposit < min_deposit {
            return Err(crate::common::MarketError::DepositTooLow);
        }
        let bought_out: bool = match &self.market.auctions[i].1.buy_out_price {
            Some(bo) => {
                match crate::fee::calculate_price_with_fees(*bo, origins.as_ref()) {
                    Ok(pw) => pw <= deposit,
                    Err(e) => {
                        return Err(e);
                    },
                }
            },
            None => false,
        };
        let old_end = self.market.auctions[i].1.end;
        let new_end: u64 = if bought_out {
            now
        } else if old_end - now < EXTENSION_DURATION {
            match now.checked_add(EXTENSION_DURATION) {
                Some(v) => v,
                None => {
                    return Err(crate::common::MarketError::Overflow);
                },
            }
        } else {
            old_end
        };
        let ghost preauctions = self.market.auctions@;
        proof {
            crate::table::lemma_u_swap_remove(preauctions, i as int);
        }
        let (aid, mut auction) = self.market.auctions.swap_remove(i);
        let prev_bid = auction.bid;
        let refund: Option<crate::common::FundTransfer> = match prev_bid {
            Some(prev) => Some(
                crate::common::FundTransfer {
                    ft_token_id,
                    receiver_id: prev.owner_id,
                    amount: prev.price,
                },
            ),
            None => None,
        };
        let new_bid = crate::bid::Bid {
            owner_id: predecessor,
            price: deposit,
            start: now,
            end: None,
            origins: match origins {
                Some(o) => o,
                None => Vec::new(),
            },
        };
        auction.bid = Some(new_bid);
        auction.end = new_end;
        proof {
            crate::table::lemma_u_push(self.market.auctions@, (aid, auction));
        }
        self.market.auctions.push((aid, auction));
        proof {
            let news = self.market.auctions@;
            assert forall|a: int|
                0 <= a < news.len() implies auction_wf(#[trigger] news[a].1) && news[a].0
                < self.market.next_auction_id by {
                if a < news.len() - 1 {
                    let n = preauctions.len() as int;
                    let sa = if a == i {
                        n - 1
                    } else {
                        a
                    };
                    assert(news[a] == preauctions[sa]);
                } else {
                    assert(news[a].1 == auction);
                    assert(preauctions[i as int].0 == aid);
                    crate::fee::lemma_sum_weights_nonneg(auction.bid->0.origins@);
                }
            }
            assert(self.market.auctions_map() == pre.market.auctions_map().insert(
                auction_id,
                auction,
            ));
            assert(self.market.auctions_map().dom() =~= pre.market.auctions_map().dom());
            assert(crate::table::u_at(news, auction_id) == auction) by {
                crate::table::lemma_u_at_index(news, news.len() - 1);
            }
        }
        Ok(refund)
    }
}

impl crate::Market {
    /// Cancels the auction, owner-only and only before the first bid; one
    /// yocto unit must be attached. The record is removed (no refund is
    /// needed, as no bid exists).
    pub fn cancel_auction(
        &mut self,
        auction_id: u128,
        predecessor: AccountId,
        deposit: u128,
    ) -> (r: Result<(), crate::common::MarketError>)
        requires
            crate::market_wf(*old(self)),
        ensures
            crate::market_wf(*final(self)),
            ({
                let am = old(self).market.auctions_map();
                let exists_a = am.dom().contains(auction_id);
                let a0 = am[auction_id];
                match r {
                    Ok(()) => {
                        &&& same_but_auctions(*final(self), *old(self))
                        &&& final(self).market.next_auction_id == old(self).market.next_auction_id
                        &&& deposit == 1
                        &&& exists_a
                        &&& a0.owner_id@ == predecessor@
                        &&& a0.bid is None
                        &&& final(self).market.auctions_map() == am.remove(auction_id)
                    },
                    Err(e) => {
                        &&& *final(self) == *old(self)
                        &&& (e == crate::common::MarketError::NotOneYocto <==> deposit != 1)
                        &&& (e == crate::common::MarketError::NoAuction <==> deposit == 1
                            && !exists_a)
                        &&& (e == crate::common::MarketError::NotOwner <==> deposit == 1
                            && exists_a && a0.owner_id@ != predecessor@)
                        &&& (e == crate::common::MarketError::AuctionHasBid <==> deposit == 1
                            && exists_a && a0.owner_id@ == predecessor@ && a0.bid is Some)
                        &&& (e == crate::common::MarketError::NotOneYocto || e
                            == crate::common::MarketError::NoAuction || e
                            == crate::common::MarketError::NotOwner || e
                            == crate::common::MarketError::AuctionHasBid)
                    },
                }
            }),
    {
        if deposit != 1 {
            return Err(crate::common::MarketError::NotOneYocto);
        }
        let ghost pre = *self;
        let i = match crate::table::u_find(&self.market.auctions, auction_id) {
            Some(i) => i,
            None => {
                return Err(crate::common::MarketError::NoAuction);
            },
        };
        proof {
            crate::table::lemma_u_at_index(self.market.auctions@, i as int);
        }
        if !(self.market.auctions[i].1.owner_id == predecessor) {
            return Err(crate::common::MarketError::NotOwner);
        }
        match &self.market.auctions[i].1.bid {
            Some(_) => {
                return Err(crate::common::MarketError::AuctionHasBid);
            },
            None => {},
        }
        let ghost preauctions = self.market.auctions@;
        proof {
            crate::table::lemma_u_swap_remove(preauctions, i as int);
        }
        self.market.auctions.swap_remove(i);
        proof {
            let news = self.market.auctions@;
            assert forall|a: int|
                0 <= a < news.len() implies auction_wf(#[trigger] news[a].1) && news[a].0
                < self.market.next_auction_id by {
                let n = preauctions.len() as int;
                let sa = if a == i {
                    n - 1
                } else {
                    a
                };
                assert(news[a] == preauctions[sa]);
            }
        }
        Ok(())
    }

    /// Finishes the auction: anyone may call it once the end time has
    /// passed, provided a bid exists. The record is removed and the
    /// asynchronous settlement request is handed back (buyer- and
    /// seller-side fee maps with the protocol fee added), to be resolved
    /// through `resolve_finish_auction`.
    pub fn finish_auction(
        &mut self,
        auction_id: u128,
        now: u64,
        market_account: &AccountId,
    ) -> (r: Result<crate::sale::SettlementRequest, crate::common::MarketError>)
        requires
            crate::market_wf(*old(self)),
        ensures
            crate::market_wf(*final(self)),
            ({
                let am = old(self).market.auctions_map();
                let exists_a = am.dom().contains(auction_id);
                let a0 = am[auction_id];
                let ended = exists_a && now > a0.end;
                match r {
                    Ok(req) => {
                        &&& same_but_auctions(*final(self), *old(self))
                        &&& final(self).market.next_auction_id == old(self).market.next_auction_id
                        &&& ended
                        &&& a0.bid is Some
                        &&& final(self).market.auctions_map() == am.remove(auction_id)
                        &&& ({
                            let b = a0.bid->0;
                            &&& req.receiver_id == b.owner_id
                            &&& req.token_id == a0.token_id
                            &&& req.approval_id == a0.approval_id
                            &&& req.price == b.price
                            &&& req.max_len_payout == 10
                            &&& req.nft_contract_id == a0.nft_contract_id
                            &&& req.ft_token_id == a0.ft_token_id
                            &&& crate::sale::with_fee_entry(
                                req.fees.buyer@,
                                b.origins@,
                                market_account@,
                                crate::fee::PROTOCOL_FEE as u32,
                            )
                            &&& crate::sale::with_fee_entry(
                                req.fees.seller@,
                                a0.origins@,
                                market_account@,
                                crate::fee::PROTOCOL_FEE as u32,
                            )
                        })
                    },
                    Err(e) => {
                        &&& *final(self) == *old(self)
                        &&& (e == crate::common::MarketError::NoAuction <==> !exists_a)
                        &&& (e == crate::common::MarketError::AuctionNotFinished <==> exists_a
                            && now <= a0.end)
                        &&& (e == crate::common::MarketError::NoBid <==> ended && a0.bid is None)
                        &&& (e == crate::common::MarketError::NoAuction || e
                            == crate::common::MarketError::AuctionNotFinished || e
                            == crate::common::MarketError::NoBid)
                    },
                }
            }),
    {
        let ghost pre = *self;
        let i = match crate::table::u_find(&self.market.auctions, auction_id) {
            Some(i) => i,
            None => {
                return Err(crate::common::MarketError::NoAuction);
            },
        };
        proof {
            crate::table::lemma_u_at_index(self.market.auctions@, i as int);
        }
        if !(now > self.market.auctions[i].1.end) {
            return Err(crate::common::MarketError::AuctionNotFinished);
        }
        match &self.market.auctions[i].1.bid {
            Some(_) => {},
            None => {
                return Err(crate::common::MarketError::NoBid);
            },
        }
        let ghost preauctions = self.market.auctions@;
        proof {
            crate::table::lemma_u_swap_remove(preauctions, i as int);
        }
        let (_aid, auction) = self.market.auctions.swap_remove(i);
        let final_bid = match auction.bid {
            Some(b) => b,
            None => {
                proof {
                    assert(false);
                }
                return Err(crate::common::MarketError::NoBid);
            },
        };
        let mut buyer = final_bid.origins;
        crate::sale::add_fee_entry(&mut buyer, market_account, crate::fee::PROTOCOL_FEE as u32);
        let mut seller_fee = crate::bid::copy_origins(&auction.origins);
        crate::sale::add_fee_entry(
            &mut seller_fee,
            market_account,
            crate::fee::PROTOCOL_FEE as u32,
        );
        let fees = crate::fee::Fees { buyer, seller: seller_fee };
        let req = crate::sale::SettlementRequest {
            receiver_id: final_bid.owner_id,
            token_id: auction.token_id,
            approval_id: auction.approval_id,
            fees,
            price: final_bid.price,
            max_len_payout: 10,
            nft_contract_id: auction.nft_contract_id,
            ft_token_id: auction.ft_token_id,
        };
        proof {
            let news = self.market.auctions@;
            assert forall|a: int|
                0 <= a < news.len() implies auction_wf(#[trigger] news[a].1) && news[a].0
                < self.market.next_auction_id by {
                let n = preauctions.len() as int;
                let sa = if a == i {
                    n - 1
                } else {
                    a
                };
                assert(news[a] == preauctions[sa]);
            }
        }
        Ok(req)
    }

    /// Second settlement phase for an auction: like `resolve_purchase`, but
    /// with no remaining bids to refund. A missing or invalid payout split
    /// refunds the buyer's full gross payment; a valid one pays every entry
    /// exactly its listed amount.
    pub fn resolve_finish_auction(
        &self,
        ft_token_id: AccountId,
        buyer_id: AccountId,
        price: u128,
        transfer_result: Option<crate::sale::Payout>,
    ) -> (out: (u128, Vec<crate::common::FundTransfer>))
        ensures
            ({
                let is_near = ft_token_id@ == "near"@;
                let valid = transfer_result matches Some(p) && crate::sale::payout_valid(
                    p,
                    price,
                    0,
                );
                if valid {
                    let p = transfer_result->0;
                    &&& out.1@.map_values(|t: crate::common::FundTransfer| crate::bid::transfer_view(t))
                        == crate::sale::payout_transfer_views(ft_token_id@, p.payout@)
                    &&& out.0 == if is_near {
                        price
                    } else {
                        0u128
                    }
                } else {
                    &&& out.0 == price
                    &&& if is_near {
                        out.1@.len() == 1 && crate::bid::transfer_view(out.1@[0]) == (
                            ft_token_id@,
                            buyer_id@,
                            price,
                        )
                    } else {
                        out.1@.len() == 0
                    }
                }
            }),
    {
        let near: String = "near".to_owned();
        let is_near = ft_token_id == near;
        let valid: bool = match &transfer_result {
            Some(p) => {
                let lp = p.payout.len();
                if lp == 0 || lp > 10 {
                    false
                } else {
                    let mut remainder: u128 = price;
                    let mut under = false;
                    let mut t: usize = 0;
                    proof {
                        assert(p.payout@.take(0) =~= Seq::<(AccountId, u128)>::empty());
                    }
                    while t < lp && !under
                        invariant
                            0 <= t <= lp,
                            lp == p.payout@.len(),
                            !under ==> remainder == price - crate::sale::payout_sum(
                                p.payout@.take(t as int),
                            ),
                            under ==> crate::sale::payout_sum(p.payout@) > price,
                        decreases lp - t, (if under { 0int } else { 1int }),
                    {
                        let v = p.payout[t].1;
                        match remainder.checked_sub(v) {
                            Some(r2) => {
                                proof {
                                    crate::sale::lemma_payout_sum_take(p.payout@, t as int);
                                }
                                remainder = r2;
                                t = t + 1;
                            },
                            None => {
                                proof {
                                    crate::sale::lemma_payout_sum_take(p.payout@, t as int);
                                    crate::sale::lemma_payout_sum_prefix(p.payout@, t + 1);
                                }
                                under = true;
                            },
                        }
                    }
                    proof {
                        if !under {
                            assert(p.payout@.take(lp as int) =~= p.payout@);
                        }
                    }
                    !under && remainder <= 1
                }
            },
            None => false,
        };
        if valid {
            let p = match transfer_result {
                Some(p) => p,
                None => {
                    proof {
                        assert(false);
                    }
                    return (price, Vec::new());
                },
            };
            let mut transfers: Vec<crate::common::FundTransfer> = Vec::new();
            let lp = p.payout.len();
            let mut t: usize = 0;
            proof {
                assert(transfers@.map_values(
                    |t: crate::common::FundTransfer| crate::bid::transfer_view(t),
                ) =~= crate::sale::payout_transfer_views(ft_token_id@, p.payout@.take(0)));
            }
            while t < lp
                invariant
                    0 <= t <= lp,
                    lp == p.payout@.len(),
                    transfers@.map_values(
                        |t: crate::common::FundTransfer| crate::bid::transfer_view(t),
                    ) == crate::sale::payout_transfer_views(ft_token_id@, p.payout@.take(t as int)),
                decreases lp - t,
            {
                let amount = p.payout[t].1;
                let tr = crate::common::FundTransfer {
                    ft_token_id: ft_token_id.clone(),
                    receiver_id: p.payout[t].0.clone(),
                    amount,
                };
                let ghost tr0 = tr;
                let ghost pret = transfers@;
                transfers.push(tr);
                proof {
                    let f = |t: crate::common::FundTransfer| crate::bid::transfer_view(t);
                    assert(transfers@ == pret.push(tr0));
                    assert(transfers@.map_values(f) =~= pret.map_values(f).push(f(tr0)));
                    assert(crate::sale::payout_transfer_views(ft_token_id@, p.payout@.take(t + 1))
                        =~= crate::sale::payout_transfer_views(
                        ft_token_id@,
                        p.payout@.take(t as int),
                    ).push((ft_token_id@, p.payout@[t as int].0@, p.payout@[t as int].1)));
                }
                t = t + 1;
            }
            proof {
                assert(p.payout@.take(lp as int) =~= p.payout@);
            }
            if is_near {
                (price, transfers)
            } else {
                (0, transfers)
            }
        } else {
            if is_near {
                let mut transfers: Vec<crate::common::FundTransfer> = Vec::new();
                transfers.push(
                    crate::common::FundTransfer {
                        ft_token_id,
                        receiver_id: buyer_id,
                        amount: price,
                    },
                );
                (price, transfers)
            } else {
                (price, Vec::new())
            }
        }
    }
}

/// The fee-exclusive actual amount, under checked arithmetic.
fn deposit_actual(amount: u128, total_origins: u32) -> (r: Option<u128>)
    ensures
        match r {
            Some(v) => (amount as int) * (total_origins as int + crate::fee::PROTOCOL_FEE as int)
                <= u128::MAX as int && v == crate::fee::spec_actual_amount(
                amount as int,
                total_origins as int,
            ),
            None => (amount as int) * (total_origins as int + crate::fee::PROTOCOL_FEE as int)
                > u128::MAX as int,
        },
{
    match amount.checked_mul((total_origins as u128) + crate::fee::PROTOCOL_FEE) {
        Some(_) => Some(crate::fee::calculate_actual_amount(amount, total_origins)),
        None => None,
    }
}

} // verus!
