//! Read-only views over the auctions table.
use vstd::prelude::*;

use crate::auction::{auction_json_like, spec_auction_in_progress, spec_min_next_bid, AuctionJson};
use crate::common::{AccountId, MarketError};
use crate::table::{lemma_u_at_index, u_find};
use crate::{market_wf, Market};

verus! {

impl Market {
    /// The account currently holding the highest bid, if any. Fails when the
    /// auction does not exist.
    pub fn get_current_buyer(&self, auction_id: u128) -> (r: Result<Option<AccountId>, MarketError>)
        requires
            market_wf(*self),
        ensures
            ({
                let am = self.market.auctions_map();
                match r {
                    Ok(buyer) => am.dom().contains(auction_id) && (match am[auction_id].bid {
                        Some(b) => buyer matches Some(a) && a@ == b.owner_id@,
                        None => buyer is None,
                    }),
                    Err(e) => e == MarketError::NoAuction && !am.dom().contains(auction_id),
                }
            }),
    {
        let i = match u_find(&self.market.auctions, auction_id) {
            Some(i) => i,
            None => {
                return Err(MarketError::NoAuction);
            },
        };
        proof {
            lemma_u_at_index(self.market.auctions@, i as int);
        }
        match &self.market.auctions[i].1.bid {
            Some(b) => Ok(Some(b.owner_id.clone())),
            None => Ok(None),
        }
    }

    /// Whether the auction accepts bids at time `now`. Fails when the
    /// auction does not exist.
    pub fn check_auction_in_progress(&self, auction_id: u128, now: u64) -> (r: Result<
        bool,
        MarketError,
    >)
        requires
            market_wf(*self),
        ensures
            ({
                let am = self.market.auctions_map();
                match r {
                    Ok(b) => am.dom().contains(auction_id) && b == spec_auction_in_progress(
                        am[auction_id],
                        now,
                    ),
                    Err(e) => e == MarketError::NoAuction && !am.dom().contains(auction_id),
                }
            }),
    {
        let i = match u_find(&self.market.auctions, auction_id) {
            Some(i) => i,
            None => {
                return Err(MarketError::NoAuction);
            },
        };
        proof {
            lemma_u_at_index(self.market.auctions@, i as int);
        }
        Ok(self.market.auctions[i].1.start <= now && now < self.market.auctions[i].1.end)
    }

    /// Read-only view of the auction. Fails when it does not exist.
    pub fn get_auction(&self, auction_id: u128) -> (r: Result<AuctionJson, MarketError>)
        requires
            market_wf(*self),
        ensures
            ({
                let am = self.market.auctions_map();
                match r {
                    Ok(json) => am.dom().contains(auction_id) && auction_json_like(
                        json,
                        am[auction_id],
                    ),
                    Err(e) => e == MarketError::NoAuction && !am.dom().contains(auction_id),
                }
            }),
    {
        let i = match u_find(&self.market.auctions, auction_id) {
            Some(i) => i,
            None => {
                return Err(MarketError::NoAuction);
            },
        };
        proof {
            lemma_u_at_index(self.market.auctions@, i as int);
        }
        Ok(self.json_from_auction(&self.market.auctions[i].1))
    }

    /// The smallest fee-exclusive amount the next bid must reach. Fails when
    /// the auction does not exist, or when the current bid's fee arithmetic
    /// does not fit the machine integers.
    pub fn get_minimal_next_bid(&self, auction_id: u128) -> (r: Result<u128, MarketError>)
        requires
            market_wf(*self),
        ensures
            ({
                let am = self.market.auctions_map();
                let a0 = am[auction_id];
                let act_fits = match a0.bid {
                    Some(b) => (b.price as int) * (crate::bid::spec_bid_total(b)
                        + crate::fee::PROTOCOL_FEE as int) <= u128::MAX as int,
                    None => true,
                };
                match r {
                    Ok(v) => am.dom().contains(auction_id) && act_fits && spec_min_next_bid(a0)
                        <= u128::MAX as int && v == spec_min_next_bid(a0),
                    Err(e) => {
                        &&& (e == MarketError::NoAuction <==> !am.dom().contains(auction_id))
                        &&& (e == MarketError::Overflow <==> am.dom().contains(auction_id) && (
                        !act_fits || spec_min_next_bid(a0) > u128::MAX as int))
                        &&& (e == MarketError::NoAuction || e == MarketError::Overflow)
                    },
                }
            }),
    {
        let i = match u_find(&self.market.auctions, auction_id) {
            Some(i) => i,
            None => {
                return Err(MarketError::NoAuction);
            },
        };
        proof {
            lemma_u_at_index(self.market.auctions@, i as int);
        }
        match &self.market.auctions[i].1.bid {
            Some(b) => {
                let bt = match crate::fee::calculate_origins(&b.origins) {
                    Ok(t) => t,
                    Err(_) => {
                        proof {
                            crate::fee::lemma_sum_weights_nonneg(b.origins@);
                            assert(false);
                        }
                        return Err(MarketError::Overflow);
                    },
                };
                match b.price.checked_mul((bt as u128) + crate::fee::PROTOCOL_FEE) {
                    Some(_) => {
                        let actual = crate::fee::calculate_actual_amount(b.price, bt);
                        match actual.checked_add(self.market.auctions[i].1.minimal_step) {
                            Some(v) => Ok(v),
                            None => Err(MarketError::Overflow),
                        }
                    },
                    None => Err(MarketError::Overflow),
                }
            },
            None => Ok(self.market.auctions[i].1.start_price),
        }
    }

    /// The current bid's fee-exclusive actual amount, if a bid exists. Fails
    /// when the auction does not exist, or when the bid's fee arithmetic
    /// does not fit the machine integers.
    pub fn get_current_bid(&self, auction_id: u128) -> (r: Result<Option<u128>, MarketError>)
        requires
            market_wf(*self),
        ensures
            ({
                let am = self.market.auctions_map();
                let a0 = am[auction_id];
                let act_fits = match a0.bid {
                    Some(b) => (b.price as int) * (crate::bid::spec_bid_total(b)
                        + crate::fee::PROTOCOL_FEE as int) <= u128::MAX as int,
                    None => true,
                };
                match r {
                    Ok(v) => am.dom().contains(auction_id) && act_fits && (match a0.bid {
                        Some(b) => v matches Some(a) && a == crate::bid::spec_bid_actual(b),
                        None => v is None,
                    }),
                    Err(e) => {
                        &&& (e == MarketError::NoAuction <==> !am.dom().contains(auction_id))
                        &&& (e == MarketError::Overflow <==> am.dom().contains(auction_id)
                            && !act_fits)
                        &&& (e == MarketError::NoAuction || e == MarketError::Overflow)
                    },
                }
            }),
    {
        let i = match u_find(&self.market.auctions, auction_id) {
            Some(i) => i,
            None => {
                return Err(MarketError::NoAuction);
            },
        };
        proof {
            lemma_u_at_index(self.market.auctions@, i as int);
        }
        match &self.market.auctions[i].1.bid {
            Some(b) => {
                let bt = match crate::fee::calculate_origins(&b.origins) {
                    Ok(t) => t,
                    Err(_) => {
                        proof {
                            crate::fee::lemma_sum_weights_nonneg(b.origins@);
                            assert(false);
                        }
                        return Err(MarketError::Overflow);
                    },
                };
                match b.price.checked_mul((bt as u128) + crate::fee::PROTOCOL_FEE) {
                    Some(_) => Ok(Some(crate::fee::calculate_actual_amount(b.price, bt))),
                    None => Err(MarketError::Overflow),
                }
            },
            None => Ok(None),
        }
    }

    /// A page of the auctions table: up to `limit` auctions starting at
    /// position `from_index`, in storage order.
    pub fn get_auctions(&self, from_index: Option<u128>, limit: Option<u64>) -> (r: Vec<
        AuctionJson,
    >)
        ensures
            ({
                let start = match from_index {
                    Some(f) => f as int,
                    None => 0,
                };
                let lim = match limit {
                    Some(l) => l as int,
                    None => self.market.auctions@.len() as int,
                };
                let end = if start + lim <= self.market.auctions@.len() {
                    start + lim
                } else {
                    self.market.auctions@.len() as int
                };
                &&& r@.len() == (if start <= end {
                    end - start
                } else {
                    0
                })
                &&& forall|x: int|
                    0 <= x < r@.len() ==> auction_json_like(
                        #[trigger] r@[x],
                        self.market.auctions@[start + x].1,
                    )
            }),
    {
        let n = self.market.auctions.len();
        let start: usize = match from_index {
            Some(f) => {
                if f > (n as u128) {
                    n
                } else {
                    f as usize
                }
            },
            None => 0,
        };
        let end: usize = match limit {
            Some(l) => {
                if (l as u128) >= ((n - start) as u128) {
                    n
                } else {
                    start + (l as usize)
                }
            },
            None => n,
        };
        let mut out: Vec<AuctionJson> = Vec::new();
        let mut x: usize = start;
        while x < end
            invariant
                start <= x <= end <= n,
                n == self.market.auctions@.len(),
                out@.len() == x - start,
                forall|y: int|
                    0 <= y < out@.len() ==> auction_json_like(
                        #[trigger] out@[y],
                        self.market.auctions@[start + y].1,
                    ),
            decreases end - x,
        {
            let json = self.json_from_auction(&self.market.auctions[x].1);
            out.push(json);
            x = x + 1;
        }
        out
    }
}

} // verus!
