//! Maintenance helpers that force a listing's clock forward; they exist so
//! that integration drivers can end a window without waiting.
use vstd::prelude::*;

use crate::common::{ContractAndTokenId, MarketError};
use crate::inner::{lemma_wf_after_sale_update, same_but_sales, same_sale_except_bids};
use crate::table::{
    lemma_s_at_index, lemma_s_push, lemma_s_swap_remove, lemma_u_at_index, lemma_u_push,
    lemma_u_swap_remove, s_at, s_find, s_has, s_map, u_find,
};
use crate::{market_wf, Market};

verus! {

impl Market {
    /// Forces the sale's availability window to end now.
    pub fn hack_finish_sale(&mut self, nft_contract_token: ContractAndTokenId, now: u64) -> (r:
        Result<(), MarketError>)
        requires
            market_wf(*old(self)),
        ensures
            market_wf(*final(self)),
            same_but_sales(*final(self), *old(self)),
            ({
                let k = nft_contract_token@;
                let sm = old(self).market.sales_map();
                match r {
                    Ok(()) => {
                        &&& sm.dom().contains(k)
                        &&& final(self).market.sales_map().dom() == sm.dom()
                        &&& forall|m: Seq<char>|
                            sm.dom().contains(m) && m != k ==> final(self).market.sales_map()[m]
                                == sm[m]
                        &&& final(self).market.sales_map()[k].end == Some(now)
                        &&& final(self).market.sales_map()[k].bids == sm[k].bids
                        &&& final(self).market.sales_map()[k].sale_conditions
                            == sm[k].sale_conditions
                        &&& final(self).market.sales_map()[k].start == sm[k].start
                        &&& final(self).market.sales_map()[k].owner_id == sm[k].owner_id
                    },
                    Err(e) => e == MarketError::NoSale && !sm.dom().contains(k) && *final(self)
                        == *old(self),
                }
            }),
    {
        let ghost pre = *self;
        let i = match s_find(&self.market.sales, &nft_contract_token) {
            Some(i) => i,
            None => {
                return Err(MarketError::NoSale);
            },
        };
        let ghost k = nft_contract_token@;
        let ghost presales = self.market.sales@;
        proof {
            lemma_s_at_index(presales, i as int);
            lemma_s_swap_remove(presales, i as int);
        }
        let (kstr, mut sale) = self.market.sales.swap_remove(i);
        sale.end = Some(now);
        proof {
            lemma_s_push(self.market.sales@, (kstr, sale));
        }
        self.market.sales.push((kstr, sale));
        proof {
            let news = self.market.sales@;
            assert forall|x: int| #![trigger news[x]] 0 <= x < news.len() implies ((news[x].0@ == k
                && news[x].1 == sale) || (exists|y: int|
                0 <= y < presales.len() && news[x] == #[trigger] presales[y])) by {
                if x < news.len() - 1 {
                    let n = presales.len() as int;
                    let sa = if x == i {
                        n - 1
                    } else {
                        x
                    };
                    assert(news[x] == presales[sa]);
                }
            }
            assert(self.market.sales_map() == pre.market.sales_map().insert(k, sale));
            lemma_wf_after_sale_update(pre, *self, k, sale);
            assert(s_at(news, k) == sale) by {
                lemma_s_at_index(news, news.len() - 1);
            }
            assert(self.market.sales_map().dom() =~= pre.market.sales_map().dom());
        }
        Ok(())
    }

    /// Forces the validity window of the latest native-currency bid of the
    /// sale to end now (when that bid exists).
    pub fn hack_finish_bid(&mut self, nft_contract_token: ContractAndTokenId, now: u64) -> (r:
        Result<(), MarketError>)
        requires
            market_wf(*old(self)),
        ensures
            market_wf(*final(self)),
            same_but_sales(*final(self), *old(self)),
            ({
                let k = nft_contract_token@;
                let sm = old(self).market.sales_map();
                match r {
                    Ok(()) => {
                        &&& sm.dom().contains(k)
                        &&& s_has(sm[k].bids@, "near"@)
                        &&& final(self).market.sales_map().dom() == sm.dom()
                        &&& forall|m: Seq<char>|
                            sm.dom().contains(m) && m != k ==> final(self).market.sales_map()[m]
                                == sm[m]
                        &&& ({
                            let sale1 = final(self).market.sales_map()[k];
                            let bucket0 = s_at(sm[k].bids@, "near"@)@;
                            let bucket1 = s_at(sale1.bids@, "near"@)@;
                            &&& same_sale_except_bids(sale1, sm[k])
                            &&& s_has(sale1.bids@, "near"@)
                            &&& bucket1.len() == bucket0.len()
                            &&& bucket1.drop_last() == bucket0.drop_last()
                            &&& bucket1.last().owner_id == bucket0.last().owner_id
                            &&& bucket1.last().price == bucket0.last().price
                            &&& bucket1.last().start == bucket0.last().start
                            &&& bucket1.last().origins == bucket0.last().origins
                            &&& bucket1.last().end == Some(now)
                            &&& forall|ft2: Seq<char>|
                                ft2 != "near"@ ==> s_has(sale1.bids@, ft2) == s_has(
                                    sm[k].bids@,
                                    ft2,
                                )
                            &&& forall|ft2: Seq<char>|
                                ft2 != "near"@ && s_has(sm[k].bids@, ft2) ==> s_at(
                                    sale1.bids@,
                                    ft2,
                                ) == s_at(sm[k].bids@, ft2)
                        })
                    },
                    Err(e) => {
                        &&& *final(self) == *old(self)
                        &&& (e == MarketError::NoSale <==> !sm.dom().contains(k))
                        &&& (e == MarketError::NoBids <==> sm.dom().contains(k) && !s_has(
                            sm[k].bids@,
                            "near"@,
                        ))
                        &&& (e == MarketError::NoSale || e == MarketError::NoBids)
                    },
                }
            }),
    {
        let ghost pre = *self;
        let i = match s_find(&self.market.sales, &nft_contract_token) {
            Some(i) => i,
            None => {
                return Err(MarketError::NoSale);
            },
        };
        let ghost k = nft_contract_token@;
        let ghost presales = self.market.sales@;
        proof {
            lemma_s_at_index(presales, i as int);
        }
        let near: String = "near".to_owned();
        let j = match s_find(&self.market.sales[i].1.bids, &near) {
            Some(j) => j,
            None => {
                return Err(MarketError::NoBids);
            },
        };
        let ghost sale0 = presales[i as int].1;
        let ghost bucket0 = sale0.bids@[j as int].1@;
        proof {
            lemma_s_at_index(sale0.bids@, j as int);
            lemma_s_swap_remove(presales, i as int);
        }
        let (kstr, mut sale) = self.market.sales.swap_remove(i);
        proof {
            lemma_s_swap_remove(sale.bids@, j as int);
        }
        let (ftstr, mut bucket) = sale.bids.swap_remove(j);
        let mut last = match bucket.pop() {
            Some(b) => b,
            None => {
                proof {
                    assert(false);
                }
                return Err(MarketError::NoBids);
            },
        };
        last.end = Some(now);
        let ghost last2 = last;
        bucket.push(last);
        proof {
            assert(bucket@ =~= bucket0.update(bucket0.len() - 1, last2));
            lemma_s_push(sale.bids@, (ftstr, bucket));
        }
        sale.bids.push((ftstr, bucket));
        proof {
            lemma_s_push(self.market.sales@, (kstr, sale));
        }
        self.market.sales.push((kstr, sale));
        proof {
            let news = self.market.sales@;
            assert forall|x: int| #![trigger news[x]] 0 <= x < news.len() implies ((news[x].0@ == k
                && news[x].1 == sale) || (exists|y: int|
                0 <= y < presales.len() && news[x] == #[trigger] presales[y])) by {
                if x < news.len() - 1 {
                    let n = presales.len() as int;
                    let sa = if x == i {
                        n - 1
                    } else {
                        x
                    };
                    assert(news[x] == presales[sa]);
                }
            }
            let cap = self.market.bid_history_length as int;
            assert(crate::sale::sale_wf(sale, cap)) by {
                let prebids = sale0.bids@;
                assert(crate::table::skeys_distinct(sale.bids@));
                assert forall|x: int|
                    0 <= x < sale.bids@.len() implies crate::bid::bucket_wf(
                    (#[trigger] sale.bids@[x]).1@,
                    cap,
                ) by {
                    if x < sale.bids@.len() - 1 {
                        let n = prebids.len() as int;
                        let sa = if x == j as int {
                            n - 1
                        } else {
                            x
                        };
                        assert(sale.bids@[x] == prebids[sa]);
                    } else {
                        let b1 = sale.bids@[x].1@;
                        assert(b1 =~= bucket0.update(bucket0.len() - 1, last2));
                        assert(crate::bid::bucket_wf(bucket0, cap));
                        assert forall|p: int, q: int|
                            0 <= p < q < b1.len() implies crate::bid::spec_bid_actual(b1[p])
                            < crate::bid::spec_bid_actual(b1[q]) by {
                            assert(crate::bid::spec_bid_actual(bucket0[p])
                                < crate::bid::spec_bid_actual(bucket0[q]));
                            if q == b1.len() - 1 {
                                assert(b1[q] == last2);
                                assert(crate::bid::spec_bid_actual(last2)
                                    == crate::bid::spec_bid_actual(bucket0[q]));
                            }
                        }
                        assert forall|p: int| 0 <= p < b1.len() implies crate::bid::bid_wf(
                            #[trigger] b1[p],
                        ) by {
                            assert(crate::bid::bid_wf(bucket0[p]));
                            if p == b1.len() - 1 {
                                assert(b1[p] == last2);
                            }
                        }
                    }
                }
            }
            assert(self.market.sales_map() == pre.market.sales_map().insert(k, sale));
            lemma_wf_after_sale_update(pre, *self, k, sale);
            assert(s_at(news, k) == sale) by {
                lemma_s_at_index(news, news.len() - 1);
            }
            assert(self.market.sales_map().dom() =~= pre.market.sales_map().dom());
            let bids1 = sale.bids@;
            assert(s_has(bids1, "near"@) && s_at(bids1, "near"@) == bids1.last().1) by {
                lemma_s_at_index(bids1, bids1.len() - 1);
            }
            assert forall|ft2: Seq<char>| ft2 != "near"@ implies s_has(bids1, ft2) == s_has(
                sale0.bids@,
                ft2,
            ) by {
                assert(s_map(bids1).dom().contains(ft2) == s_map(sale0.bids@).dom().contains(ft2));
            }
            assert forall|ft2: Seq<char>| ft2 != "near"@ && s_has(sale0.bids@, ft2) implies s_at(
                bids1,
                ft2,
            ) == s_at(sale0.bids@, ft2) by {
                assert(s_map(bids1)[ft2] == s_map(sale0.bids@)[ft2]);
            }
            assert(s_at(bids1, "near"@)@.drop_last() =~= bucket0.drop_last());
        }
        Ok(())
    }

    /// Forces the auction's end to now (the start must not lie in the
    /// future, so that the record stays well formed).
    pub fn hack_finish_auction(&mut self, auction_id: u128, now: u64) -> (r: Result<
        (),
        MarketError,
    >)
        requires
            market_wf(*old(self)),
        ensures
            market_wf(*final(self)),
            ({
                let am = old(self).market.auctions_map();
                let exists_a = am.dom().contains(auction_id);
                match r {
                    Ok(()) => {
                        &&& crate::auction::same_but_auctions(*final(self), *old(self))
                        &&& final(self).market.next_auction_id == old(self).market.next_auction_id
                        &&& exists_a
                        &&& am[auction_id].start <= now
                        &&& final(self).market.auctions_map().dom() == am.dom()
                        &&& forall|x: u128|
                            am.dom().contains(x) && x != auction_id ==> final(self).market.auctions_map()[x] == am[x]
                        &&& final(self).market.auctions_map()[auction_id].end == now
                        &&& final(self).market.auctions_map()[auction_id].bid
                            == am[auction_id].bid
                        &&& final(self).market.auctions_map()[auction_id].start
                            == am[auction_id].start
                    },
                    Err(e) => {
                        &&& *final(self) == *old(self)
                        &&& (e == MarketError::NoAuction <==> !exists_a)
                        &&& (e == MarketError::IncorrectStartTime <==> exists_a
                            && am[auction_id].start > now)
                        &&& (e == MarketError::NoAuction || e == MarketError::IncorrectStartTime)
                    },
                }
            }),
    {
        let ghost pre = *self;
        let i = match u_find(&self.market.auctions, auction_id) {
            Some(i) => i,
            None => {
                return Err(MarketError::NoAuction);
            },
        };
        proof {
            lemma_u_at_index(self.market.auctions@, i as int);
        }
        if self.market.auctions[i].1.start > now {
            return Err(MarketError::IncorrectStartTime);
        }
        let ghost preauctions = self.market.auctions@;
        proof {
            lemma_u_swap_remove(preauctions, i as int);
        }
        let (aid, mut auction) = self.market.auctions.swap_remove(i);
        auction.end = now;
        proof {
            lemma_u_push(self.market.auctions@, (aid, auction));
        }
        self.market.auctions.push((aid, auction));
        proof {
            let news = self.market.auctions@;
            assert forall|a: int|
                0 <= a < news.len() implies crate::auction::auction_wf(#[trigger] news[a].1)
                && news[a].0 < self.market.next_auction_id by {
                if a < news.len() - 1 {
                    let n = preauctions.len() as int;
                    let sa = if a == i {
                        n - 1
                    } else {
                        a
                    };
                    assert(news[a] == preauctions[sa]);
                } else {
                    assert(news[a].1 == auction);
                    assert(preauctions[i as int].0 == aid);
                }
            }
            assert(self.market.auctions_map() == pre.market.auctions_map().insert(
                auction_id,
                auction,
            ));
            assert(self.market.auctions_map().dom() =~= pre.market.auctions_map().dom());
            assert(crate::table::u_at(news, auction_id) == auction) by {
                lemma_u_at_index(news, news.len() - 1);
            }
        }
        Ok(())
    }
}

} // verus!
