//! Internal removal of listings and bids: the sales table and all discovery
//! indices are kept consistent in one step.
use vstd::prelude::*;

use crate::common::{
    compose_sale_key, sale_key_view, AccountId, MarketError, TokenId,
};
use crate::sale::{sale_wf, Sale};
use crate::table::{
    idx_remove_elem, lemma_s_at_index, lemma_s_swap_remove, s_at, s_find, s_has, s_map, set_has,
    set_view, skeys_distinct,
};
use crate::{
    contract_index_wf, market_wf, owner_index_wf, sales_wf, token_type_index_wf, Market,
};

verus! {

/// Everything but the sales table and the discovery indices is unchanged.
pub open spec fn same_but_sales(a: Market, b: Market) -> bool {
    &&& a.non_fungible_token_account_ids == b.non_fungible_token_account_ids
    &&& a.market.owner_id == b.market.owner_id
    &&& a.market.ft_token_ids == b.market.ft_token_ids
    &&& a.market.storage_deposits == b.market.storage_deposits
    &&& a.market.bid_history_length == b.market.bid_history_length
    &&& a.market.auctions == b.market.auctions
    &&& a.market.next_auction_id == b.market.next_auction_id
}

/// Two sales agree on the fields the discovery indices are keyed by.
pub open spec fn same_directory_fields(a: Sale, b: Sale) -> bool {
    &&& a.owner_id == b.owner_id
    &&& a.nft_contract_id == b.nft_contract_id
    &&& a.token_id == b.token_id
    &&& a.token_type == b.token_type
}

/// Two sales agree on everything but their bid ledger.
pub open spec fn same_sale_except_bids(a: Sale, b: Sale) -> bool {
    &&& same_directory_fields(a, b)
    &&& a.approval_id == b.approval_id
    &&& a.sale_conditions == b.sale_conditions
    &&& a.created_at == b.created_at
    &&& a.start == b.start
    &&& a.end == b.end
    &&& a.origins == b.origins
}

/// Replacing the sale stored under an existing key with one that keeps the
/// directory fields (and is well formed) preserves global well-formedness,
/// with no index touched.
pub proof fn lemma_wf_after_sale_update(a: Market, b: Market, k: Seq<char>, sale2: Sale)
    requires
        market_wf(a),
        same_but_sales(b, a),
        b.market.by_owner_id == a.market.by_owner_id,
        b.market.by_nft_contract_id == a.market.by_nft_contract_id,
        b.market.by_nft_token_type == a.market.by_nft_token_type,
        a.market.sales_map().dom().contains(k),
        b.market.sales_map() == a.market.sales_map().insert(k, sale2),
        sale_wf(sale2, b.market.bid_history_length as int),
        same_directory_fields(sale2, a.market.sales_map()[k]),
        skeys_distinct(b.market.sales@),
        forall|x: int|
            0 <= x < b.market.sales@.len() ==> ((#[trigger] b.market.sales@[x]).0@ == k
                && b.market.sales@[x].1 == sale2) || (exists|y: int|
                0 <= y < a.market.sales@.len() && b.market.sales@[x] == #[trigger] a.market.sales@[y]),
    ensures
        market_wf(b),
{
    let pres = a.market.sales@;
    let news = b.market.sales@;
    let ka = choose|ka: int| 0 <= ka < pres.len() && #[trigger] pres[ka].0@ == k;
    lemma_s_at_index(pres, ka);
    let sale0 = pres[ka].1;
    assert(sales_wf(b.market)) by {
        assert forall|x: int| 0 <= x < news.len() implies sale_wf(
            #[trigger] news[x].1,
            b.market.bid_history_length as int,
        ) && news[x].0@ == sale_key_view(news[x].1.nft_contract_id@, news[x].1.token_id@) by {
            if news[x].0@ == k && news[x].1 == sale2 {
                assert(pres[ka].0@ == sale_key_view(sale0.nft_contract_id@, sale0.token_id@));
            } else {
                let y = choose|y: int| 0 <= y < pres.len() && news[x] == #[trigger] pres[y];
            }
        }
    }
    assert forall|m: Seq<char>| s_has(news, m) implies s_has(pres, m) by {
        assert(s_map(news).dom().contains(m));
        assert(s_map(pres).dom().contains(m));
    }
    assert forall|m: Seq<char>| s_has(pres, m) implies s_has(news, m) by {
        assert(s_map(pres).dom().contains(m));
        assert(s_map(news).dom().contains(m));
    }
    assert forall|m: Seq<char>| s_has(news, m) && m != k implies s_at(news, m) == s_at(pres, m) by {
        assert(s_map(news)[m] == s_map(pres)[m]);
    }
    assert(s_at(news, k) == sale2) by {
        assert(s_map(news)[k] == sale2);
    }
    assert(owner_index_wf(b.market)) by {
        let idx = b.market.by_owner_id@;
        assert forall|x: int| 0 <= x < news.len() implies s_has(
            idx,
            (#[trigger] news[x].1).owner_id@,
        ) && set_has(s_at(idx, news[x].1.owner_id@)@, news[x].0@) by {
            if news[x].0@ == k && news[x].1 == sale2 {
                assert(s_has(idx, sale0.owner_id@) && set_has(
                    s_at(idx, sale0.owner_id@)@,
                    pres[ka].0@,
                ));
            } else {
                let y = choose|y: int| 0 <= y < pres.len() && news[x] == #[trigger] pres[y];
                assert(s_has(idx, pres[y].1.owner_id@) && set_has(
                    s_at(idx, pres[y].1.owner_id@)@,
                    pres[y].0@,
                ));
            }
        }
        assert forall|p: int, q: int|
            0 <= p < idx.len() && 0 <= q < idx[p].1@.len() implies s_has(
            news,
            (#[trigger] idx[p].1@[q])@,
        ) && s_at(news, idx[p].1@[q]@).owner_id@ == idx[p].0@ by {
            let m = idx[p].1@[q]@;
            assert(s_has(pres, m) && s_at(pres, m).owner_id@ == idx[p].0@);
            if m == k {
                assert(s_at(news, k) == sale2);
                assert(sale2.owner_id == sale0.owner_id);
            } else {
                assert(s_at(news, m) == s_at(pres, m));
            }
        }
    }
    assert(contract_index_wf(b.market)) by {
        let idx = b.market.by_nft_contract_id@;
        assert forall|x: int| 0 <= x < news.len() implies s_has(
            idx,
            (#[trigger] news[x].1).nft_contract_id@,
        ) && set_has(s_at(idx, news[x].1.nft_contract_id@)@, news[x].1.token_id@) by {
            if news[x].0@ == k && news[x].1 == sale2 {
                assert(s_has(idx, sale0.nft_contract_id@) && set_has(
                    s_at(idx, sale0.nft_contract_id@)@,
                    sale0.token_id@,
                ));
            } else {
                let y = choose|y: int| 0 <= y < pres.len() && news[x] == #[trigger] pres[y];
                assert(s_has(idx, pres[y].1.nft_contract_id@) && set_has(
                    s_at(idx, pres[y].1.nft_contract_id@)@,
                    pres[y].1.token_id@,
                ));
            }
        }
        assert forall|p: int, q: int|
            0 <= p < idx.len() && 0 <= q < idx[p].1@.len() implies ({
            let key2 = sale_key_view(idx[p].0@, (#[trigger] idx[p].1@[q])@);
            s_has(news, key2) && s_at(news, key2).nft_contract_id@ == idx[p].0@ && s_at(
                news,
                key2,
            ).token_id@ == idx[p].1@[q]@
        }) by {
            let key2 = sale_key_view(idx[p].0@, idx[p].1@[q]@);
            assert(s_has(pres, key2) && s_at(pres, key2).nft_contract_id@ == idx[p].0@ && s_at(
                pres,
                key2,
            ).token_id@ == idx[p].1@[q]@);
            if key2 == k {
                assert(s_at(news, k) == sale2);
                assert(sale2.nft_contract_id == sale0.nft_contract_id);
                assert(sale2.token_id == sale0.token_id);
            } else {
                assert(s_at(news, key2) == s_at(pres, key2));
            }
        }
    }
    assert(token_type_index_wf(b.market)) by {
        let idx = b.market.by_nft_token_type@;
        assert forall|x: int|
            0 <= x < news.len() && (#[trigger] news[x].1).token_type is Some implies s_has(
            idx,
            news[x].1.token_type->0@,
        ) && set_has(s_at(idx, news[x].1.token_type->0@)@, news[x].0@) by {
            if news[x].0@ == k && news[x].1 == sale2 {
                assert(sale0.token_type is Some);
                assert(s_has(idx, sale0.token_type->0@) && set_has(
                    s_at(idx, sale0.token_type->0@)@,
                    pres[ka].0@,
                ));
            } else {
                let y = choose|y: int| 0 <= y < pres.len() && news[x] == #[trigger] pres[y];
            }
        }
        assert forall|p: int, q: int|
            0 <= p < idx.len() && 0 <= q < idx[p].1@.len() implies s_has(
            news,
            (#[trigger] idx[p].1@[q])@,
        ) && (s_at(news, idx[p].1@[q]@).token_type matches Some(tt2) && tt2@ == idx[p].0@) by {
            let m = idx[p].1@[q]@;
            assert(s_has(pres, m) && (s_at(pres, m).token_type matches Some(tt2) && tt2@
                == idx[p].0@));
            if m == k {
                assert(s_at(news, k) == sale2);
                assert(sale2.token_type == sale0.token_type);
            } else {
                assert(s_at(news, m) == s_at(pres, m));
            }
        }
    }
}


/// What removing a matching bid did to the market: the first bid of the
/// currency's bucket owned by `owner` at gross price `price` left the
/// ledger, which is otherwise untouched, and the bucket was dropped when it
/// emptied.
pub open spec fn bid_removed_post(
    pre: Market,
    post: Market,
    k: Seq<char>,
    ft: Seq<char>,
    owner: Seq<char>,
    price: u128,
    b: crate::bid::Bid,
) -> bool {
    let sm = pre.market.sales_map();
    &&& sm.dom().contains(k)
    &&& s_has(sm[k].bids@, ft)
    &&& post.market.sales_map().dom() == sm.dom()
    &&& forall|m: Seq<char>|
        sm.dom().contains(m) && m != k ==> post.market.sales_map()[m] == sm[m]
    &&& ({
        let sale0 = sm[k];
        let sale1 = post.market.sales_map()[k];
        let bucket = s_at(sale0.bids@, ft)@;
        &&& same_sale_except_bids(sale1, sale0)
        &&& exists|idx: int|
            {
                &&& 0 <= idx < bucket.len()
                &&& crate::bid::bid_matches(#[trigger] bucket[idx], owner, price)
                &&& b == bucket[idx]
                &&& forall|j: int|
                    0 <= j < idx ==> !crate::bid::bid_matches(#[trigger] bucket[j], owner, price)
                &&& if bucket.len() == 1 {
                    !s_has(sale1.bids@, ft)
                } else {
                    s_has(sale1.bids@, ft) && s_at(sale1.bids@, ft)@ == bucket.remove(idx)
                }
            }
        &&& forall|ft2: Seq<char>|
            ft2 != ft ==> s_has(sale1.bids@, ft2) == s_has(sale0.bids@, ft2)
        &&& forall|ft2: Seq<char>|
            ft2 != ft && s_has(sale0.bids@, ft2) ==> s_at(sale1.bids@, ft2) == s_at(
                sale0.bids@,
                ft2,
            )
    })
}

/// Why removing a matching bid was rejected: no sale, no bucket for the
/// currency, or no bid in the bucket matching owner and price.
pub open spec fn bid_remove_err(
    pre: Market,
    k: Seq<char>,
    ft: Seq<char>,
    owner: Seq<char>,
    price: u128,
    e: MarketError,
) -> bool {
    let sm = pre.market.sales_map();
    &&& (e == MarketError::NoSale || e == MarketError::NoBids || e == MarketError::NoSuchBid)
    &&& (e == MarketError::NoSale <==> !sm.dom().contains(k))
    &&& (e == MarketError::NoBids <==> sm.dom().contains(k) && !s_has(sm[k].bids@, ft))
    &&& (e == MarketError::NoSuchBid <==> sm.dom().contains(k) && s_has(sm[k].bids@, ft) && (
    forall|j: int|
        0 <= j < s_at(sm[k].bids@, ft)@.len() ==> !crate::bid::bid_matches(
            #[trigger] s_at(sm[k].bids@, ft)@[j],
            owner,
            price,
        )))
}


impl Market {
    /// Removes the sale of the given token together with its entries in the
    /// three discovery indices, and returns the removed record.
    ///
    /// Fails with `NoSale`, changing nothing, exactly when no sale is stored
    /// under the token's listing key.
    pub fn internal_remove_sale(
        &mut self,
        nft_contract_id: AccountId,
        token_id: TokenId,
    ) -> (r: Result<Sale, MarketError>)
        requires
            market_wf(*old(self)),
        ensures
            market_wf(*final(self)),
            same_but_sales(*final(self), *old(self)),
            ({
                let k = sale_key_view(nft_contract_id@, token_id@);
                match r {
                    Ok(sale) => old(self).market.sales_map().dom().contains(k) && sale == old(
                        self,
                    ).market.sales_map()[k] && final(self).market.sales_map() == old(
                        self,
                    ).market.sales_map().remove(k),
                    Err(e) => e == MarketError::NoSale && !old(
                        self,
                    ).market.sales_map().dom().contains(k) && *final(self) == *old(self),
                }
            }),
    {
        let key = compose_sale_key(&nft_contract_id, &token_id);
        let i = match s_find(&self.market.sales, &key) {
            Some(i) => i,
            None => {
                return Err(MarketError::NoSale);
            },
        };
        let ghost presales = self.market.sales@;
        let ghost k = key@;
        proof {
            lemma_s_at_index(presales, i as int);
            lemma_s_swap_remove(presales, i as int);
        }
        let (_removed_key, sale) = self.market.sales.swap_remove(i);
        let ghost newsales = self.market.sales@;
        proof {
            // Remaining entries are exactly the old ones minus index `i`.
            assert forall|a: int| #![trigger newsales[a]] 0 <= a < newsales.len() implies (exists|
                sa: int,
            |
                0 <= sa < presales.len() && sa != i && newsales[a] == #[trigger] presales[sa]) by {
                let n = presales.len() as int;
                let sa = if a == i {
                    n - 1
                } else {
                    a
                };
                assert(newsales[a] == presales[sa]);
            }
            assert(sales_wf(self.market)) by {
                assert forall|a: int| 0 <= a < newsales.len() implies sale_wf(
                    #[trigger] newsales[a].1,
                    self.market.bid_history_length as int,
                ) && newsales[a].0@ == sale_key_view(
                    newsales[a].1.nft_contract_id@,
                    newsales[a].1.token_id@,
                ) by {
                    let sa = choose|sa: int|
                        0 <= sa < presales.len() && sa != i && newsales[a] == #[trigger] presales[sa];
                    assert(sale_wf(presales[sa].1, old(self).market.bid_history_length as int));
                }
            }
            // No remaining entry carries the removed key.
            assert forall|a: int| 0 <= a < newsales.len() implies (#[trigger] newsales[a].0)@
                != k by {
                let sa = choose|sa: int|
                    0 <= sa < presales.len() && sa != i && newsales[a] == #[trigger] presales[sa];
            }
        }
        // Owner index.
        proof {
            assert(s_has(old(self).market.by_owner_id@, sale.owner_id@) && set_has(
                s_at(old(self).market.by_owner_id@, sale.owner_id@)@,
                k,
            )) by {
                assert(presales[i as int].1 == sale);
            }
        }
        let ghost preowner = self.market.by_owner_id@;
        idx_remove_elem(&mut self.market.by_owner_id, &sale.owner_id, &key);
        proof {
            let o = sale.owner_id@;
            let post = self.market.by_owner_id@;
            assert(owner_index_wf(self.market)) by {
                // Forward: every remaining sale is still indexed.
                assert forall|a: int| 0 <= a < newsales.len() implies s_has(
                    post,
                    (#[trigger] newsales[a].1).owner_id@,
                ) && set_has(s_at(post, newsales[a].1.owner_id@)@, newsales[a].0@) by {
                    let sa = choose|sa: int|
                        0 <= sa < presales.len() && sa != i && newsales[a] == #[trigger] presales[sa];
                    let o2 = newsales[a].1.owner_id@;
                    assert(s_has(preowner, o2) && set_has(s_at(preowner, o2)@, newsales[a].0@));
                    if o2 == o {
                        let oldset = s_at(preowner, o)@;
                        let e1 = choose|e: int| 0 <= e < oldset.len() && #[trigger] oldset[e]@ == k;
                        let e2 = choose|e: int|
                            0 <= e < oldset.len() && #[trigger] oldset[e]@ == newsales[a].0@;
                        assert(e1 != e2);
                        assert(oldset.len() >= 2);
                        assert(set_view(s_at(post, o)@) == set_view(oldset).remove(k));
                        assert(set_view(s_at(post, o)@).contains(newsales[a].0@));
                    } else {
                        assert(s_at(post, o2) == s_at(preowner, o2));
                    }
                }
                // Backward: every indexed key is a stored sale of that owner.
                assert forall|a: int, b: int|
                    0 <= a < post.len() && 0 <= b < post[a].1@.len() implies s_has(
                    newsales,
                    (#[trigger] post[a].1@[b])@,
                ) && s_at(newsales, post[a].1@[b]@).owner_id@ == post[a].0@ by {
                    lemma_s_at_index(post, a);
                    let o2 = post[a].0@;
                    let m = post[a].1@[b]@;
                    if o2 == o {
                        let oldset = s_at(preowner, o)@;
                        assert(set_view(s_at(post, o)@) == set_view(oldset).remove(k));
                        assert(set_view(s_at(post, o)@).contains(m));
                        assert(set_has(oldset, m) && m != k);
                        let pa = choose|pa: int|
                            0 <= pa < preowner.len() && #[trigger] preowner[pa].0@ == o;
                        lemma_s_at_index(preowner, pa);
                        let pb = choose|pb: int|
                            0 <= pb < oldset.len() && #[trigger] oldset[pb]@ == m;
                        assert(s_has(presales, m) && s_at(presales, m).owner_id@ == o);
                        assert(s_map(newsales) == s_map(presales).remove(k));
                        assert(s_map(presales).dom().contains(m));
                        assert(s_map(newsales).dom().contains(m));
                        assert(s_has(newsales, m));
                        assert(s_at(newsales, m) == s_at(presales, m));
                    } else {
                        assert(s_at(post, o2) == s_at(preowner, o2));
                        let pa = choose|pa: int|
                            0 <= pa < preowner.len() && #[trigger] preowner[pa].0@ == o2;
                        lemma_s_at_index(preowner, pa);
                        assert(preowner[pa].1 == post[a].1);
                        assert(s_has(presales, m) && s_at(presales, m).owner_id@ == o2);
                        if m == k {
                            assert(s_at(presales, k).owner_id@ == o);
                            assert(false);
                        }
                        assert(s_map(newsales) == s_map(presales).remove(k));
                        assert(s_map(presales).dom().contains(m));
                        assert(s_map(newsales).dom().contains(m));
                        assert(s_has(newsales, m));
                        assert(s_at(newsales, m) == s_at(presales, m));
                    }
                }
            }
        }
        // Contract index.
        proof {
            assert(s_has(old(self).market.by_nft_contract_id@, sale.nft_contract_id@) && set_has(
                s_at(old(self).market.by_nft_contract_id@, sale.nft_contract_id@)@,
                sale.token_id@,
            )) by {
                assert(presales[i as int].1 == sale);
            }
        }
        let ghost precontract = self.market.by_nft_contract_id@;
        idx_remove_elem(&mut self.market.by_nft_contract_id, &sale.nft_contract_id, &sale.token_id);
        proof {
            let c = sale.nft_contract_id@;
            let ts = sale.token_id@;
            let post = self.market.by_nft_contract_id@;
            assert(k == sale_key_view(c, ts)) by {
                assert(presales[i as int].1 == sale);
            }
            assert(contract_index_wf(self.market)) by {
                assert forall|a: int| 0 <= a < newsales.len() implies s_has(
                    post,
                    (#[trigger] newsales[a].1).nft_contract_id@,
                ) && set_has(
                    s_at(post, newsales[a].1.nft_contract_id@)@,
                    newsales[a].1.token_id@,
                ) by {
                    let sa = choose|sa: int|
                        0 <= sa < presales.len() && sa != i && newsales[a] == #[trigger] presales[sa];
                    let c2 = newsales[a].1.nft_contract_id@;
                    let t2 = newsales[a].1.token_id@;
                    assert(s_has(precontract, c2) && set_has(s_at(precontract, c2)@, t2));
                    if c2 == c {
                        assert(t2 != ts) by {
                            if t2 == ts {
                                assert(newsales[a].0@ == sale_key_view(c2, t2));
                                assert(newsales[a].0@ == k);
                            }
                        }
                        let oldset = s_at(precontract, c)@;
                        let e1 = choose|e: int| 0 <= e < oldset.len() && #[trigger] oldset[e]@ == ts;
                        let e2 = choose|e: int| 0 <= e < oldset.len() && #[trigger] oldset[e]@ == t2;
                        assert(e1 != e2);
                        assert(oldset.len() >= 2);
                        assert(set_view(s_at(post, c)@) == set_view(oldset).remove(ts));
                        assert(set_view(s_at(post, c)@).contains(t2));
                    } else {
                        assert(s_at(post, c2) == s_at(precontract, c2));
                    }
                }
                assert forall|a: int, b: int|
                    0 <= a < post.len() && 0 <= b < post[a].1@.len() implies ({
                    let key2 = sale_key_view(post[a].0@, (#[trigger] post[a].1@[b])@);
                    s_has(newsales, key2) && s_at(newsales, key2).nft_contract_id@ == post[a].0@
                        && s_at(newsales, key2).token_id@ == post[a].1@[b]@
                }) by {
                    lemma_s_at_index(post, a);
                    let c2 = post[a].0@;
                    let t2 = post[a].1@[b]@;
                    let key2 = sale_key_view(c2, t2);
                    if c2 == c {
                        let oldset = s_at(precontract, c)@;
                        assert(set_view(s_at(post, c)@) == set_view(oldset).remove(ts));
                        assert(set_view(s_at(post, c)@).contains(t2));
                        assert(set_has(oldset, t2) && t2 != ts);
                        let pa = choose|pa: int|
                            0 <= pa < precontract.len() && #[trigger] precontract[pa].0@ == c;
                        lemma_s_at_index(precontract, pa);
                        let pb = choose|pb: int|
                            0 <= pb < oldset.len() && #[trigger] oldset[pb]@ == t2;
                        assert(s_has(presales, key2) && s_at(presales, key2).nft_contract_id@ == c
                            && s_at(presales, key2).token_id@ == t2);
                        if key2 == k {
                            assert(s_at(presales, k).token_id@ == ts);
                            assert(false);
                        }
                        assert(s_map(newsales) == s_map(presales).remove(k));
                        assert(s_map(presales).dom().contains(key2));
                        assert(s_map(newsales).dom().contains(key2));
                        assert(s_has(newsales, key2));
                        assert(s_at(newsales, key2) == s_at(presales, key2));
                    } else {
                        assert(s_at(post, c2) == s_at(precontract, c2));
                        let pa = choose|pa: int|
                            0 <= pa < precontract.len() && #[trigger] precontract[pa].0@ == c2;
                        lemma_s_at_index(precontract, pa);
                        assert(precontract[pa].1 == post[a].1);
                        assert(s_has(presales, key2) && s_at(presales, key2).nft_contract_id@ == c2
                            && s_at(presales, key2).token_id@ == t2);
                        if key2 == k {
                            assert(s_at(presales, k).nft_contract_id@ == c);
                            assert(false);
                        }
                        assert(s_map(newsales) == s_map(presales).remove(k));
                        assert(s_map(presales).dom().contains(key2));
                        assert(s_map(newsales).dom().contains(key2));
                        assert(s_has(newsales, key2));
                        assert(s_at(newsales, key2) == s_at(presales, key2));
                    }
                }
            }
        }
        // Token-type index.
        let ghost pretype = self.market.by_nft_token_type@;
        match &sale.token_type {
            Some(tt) => {
                proof {
                    assert(s_has(old(self).market.by_nft_token_type@, tt@) && set_has(
                        s_at(old(self).market.by_nft_token_type@, tt@)@,
                        k,
                    )) by {
                        assert(presales[i as int].1 == sale);
                    }
                }
                idx_remove_elem(&mut self.market.by_nft_token_type, tt, &key);
                proof {
                    let ty = tt@;
                    let post = self.market.by_nft_token_type@;
                    assert(token_type_index_wf(self.market)) by {
                        assert forall|a: int|
                            0 <= a < newsales.len() && (#[trigger] newsales[a].1).token_type
                                is Some implies s_has(post, newsales[a].1.token_type->0@)
                            && set_has(
                            s_at(post, newsales[a].1.token_type->0@)@,
                            newsales[a].0@,
                        ) by {
                            let sa = choose|sa: int|
                                0 <= sa < presales.len() && sa != i && newsales[a] == #[trigger] presales[sa];
                            let ty2 = newsales[a].1.token_type->0@;
                            assert(s_has(pretype, ty2) && set_has(
                                s_at(pretype, ty2)@,
                                newsales[a].0@,
                            ));
                            if ty2 == ty {
                                let oldset = s_at(pretype, ty)@;
                                let e1 = choose|e: int|
                                    0 <= e < oldset.len() && #[trigger] oldset[e]@ == k;
                                let e2 = choose|e: int|
                                    0 <= e < oldset.len() && #[trigger] oldset[e]@
                                        == newsales[a].0@;
                                assert(e1 != e2);
                                assert(oldset.len() >= 2);
                                assert(set_view(s_at(post, ty)@) == set_view(oldset).remove(k));
                                assert(set_view(s_at(post, ty)@).contains(newsales[a].0@));
                            } else {
                                assert(s_at(post, ty2) == s_at(pretype, ty2));
                            }
                        }
                        assert forall|a: int, b: int|
                            0 <= a < post.len() && 0 <= b < post[a].1@.len() implies s_has(
                            newsales,
                            (#[trigger] post[a].1@[b])@,
                        ) && (s_at(newsales, post[a].1@[b]@).token_type matches Some(tt2) && tt2@
                            == post[a].0@) by {
                            lemma_s_at_index(post, a);
                            let ty2 = post[a].0@;
                            let m = post[a].1@[b]@;
                            if ty2 == ty {
                                let oldset = s_at(pretype, ty)@;
                                assert(set_view(s_at(post, ty)@) == set_view(oldset).remove(k));
                                assert(set_view(s_at(post, ty)@).contains(m));
                                assert(set_has(oldset, m) && m != k);
                                let pa = choose|pa: int|
                                    0 <= pa < pretype.len() && #[trigger] pretype[pa].0@ == ty;
                                lemma_s_at_index(pretype, pa);
                                let pb = choose|pb: int|
                                    0 <= pb < oldset.len() && #[trigger] oldset[pb]@ == m;
                                assert(s_has(presales, m));
                                assert(s_map(newsales) == s_map(presales).remove(k));
                                assert(s_map(presales).dom().contains(m));
                                assert(s_map(newsales).dom().contains(m));
                                assert(s_has(newsales, m));
                                assert(s_at(newsales, m) == s_at(presales, m));
                            } else {
                                assert(s_at(post, ty2) == s_at(pretype, ty2));
                                let pa = choose|pa: int|
                                    0 <= pa < pretype.len() && #[trigger] pretype[pa].0@ == ty2;
                                lemma_s_at_index(pretype, pa);
                                assert(pretype[pa].1 == post[a].1);
                                assert(s_has(presales, m));
                                if m == k {
                                    assert(false);
                                }
                                assert(s_map(newsales) == s_map(presales).remove(k));
                                assert(s_map(presales).dom().contains(m));
                                assert(s_map(newsales).dom().contains(m));
                                assert(s_has(newsales, m));
                                assert(s_at(newsales, m) == s_at(presales, m));
                            }
                        }
                    }
                }
            },
            None => {
                proof {
                    let post = self.market.by_nft_token_type@;
                    assert(post == pretype);
                    assert(token_type_index_wf(self.market)) by {
                        assert forall|a: int|
                            0 <= a < newsales.len() && (#[trigger] newsales[a].1).token_type
                                is Some implies s_has(post, newsales[a].1.token_type->0@)
                            && set_has(
                            s_at(post, newsales[a].1.token_type->0@)@,
                            newsales[a].0@,
                        ) by {
                            let sa = choose|sa: int|
                                0 <= sa < presales.len() && sa != i && newsales[a] == #[trigger] presales[sa];
                        }
                        assert forall|a: int, b: int|
                            0 <= a < post.len() && 0 <= b < post[a].1@.len() implies s_has(
                            newsales,
                            (#[trigger] post[a].1@[b])@,
                        ) && (s_at(newsales, post[a].1@[b]@).token_type matches Some(tt2) && tt2@
                            == post[a].0@) by {
                            let m = post[a].1@[b]@;
                            assert(s_has(presales, m));
                            if m == k {
                                assert(s_at(presales, k).token_type is Some);
                                assert(s_at(presales, k).token_type is None);
                                assert(false);
                            }
                            assert(s_map(newsales) == s_map(presales).remove(k));
                            assert(s_map(presales).dom().contains(m));
                            assert(s_map(newsales).dom().contains(m));
                            assert(s_has(newsales, m));
                            assert(s_at(newsales, m) == s_at(presales, m));
                        }
                    }
                }
            },
        }
        Ok(sale)
    }

    /// Removes, from the sale of the given token, the first bid in the given
    /// currency's bucket that matches both the owner and the gross price, and
    /// returns it. The bucket is dropped when it empties.
    ///
    /// Fails, changing nothing: with `NoSale` when the listing key is free,
    /// `NoBids` when the sale has no bucket for the currency, and `NoSuchBid`
    /// when no bid in the bucket matches.
    pub fn internal_remove_bid(
        &mut self,
        nft_contract_id: AccountId,
        ft_token_id: &AccountId,
        token_id: TokenId,
        owner_id: &AccountId,
        price: u128,
    ) -> (r: Result<crate::bid::Bid, MarketError>)
        requires
            market_wf(*old(self)),
        ensures
            market_wf(*final(self)),
            same_but_sales(*final(self), *old(self)),
            ({
                let k = sale_key_view(nft_contract_id@, token_id@);
                let sm = old(self).market.sales_map();
                match r {
                    Ok(b) => bid_removed_post(
                        *old(self),
                        *final(self),
                        k,
                        ft_token_id@,
                        owner_id@,
                        price,
                        b,
                    ),
                    Err(e) => *final(self) == *old(self) && bid_remove_err(
                        *old(self),
                        k,
                        ft_token_id@,
                        owner_id@,
                        price,
                        e,
                    ),
                }
            }),
    {
        let ghost pre = *self;
        let key = compose_sale_key(&nft_contract_id, &token_id);
        let i = match s_find(&self.market.sales, &key) {
            Some(i) => i,
            None => {
                return Err(MarketError::NoSale);
            },
        };
        proof {
            lemma_s_at_index(self.market.sales@, i as int);
        }
        let j = match s_find(&self.market.sales[i].1.bids, ft_token_id) {
            Some(j) => j,
            None => {
                return Err(MarketError::NoBids);
            },
        };
        proof {
            lemma_s_at_index(self.market.sales@[i as int].1.bids@, j as int);
        }
        // Find the first matching bid without touching the state.
        let nb = self.market.sales[i].1.bids[j].1.len();
        let mut idx: usize = 0;
        let mut found = false;
        while idx < nb && !found
            invariant
                market_wf(*old(self)),
                *self == *old(self),
                i < self.market.sales@.len(),
                j < self.market.sales@[i as int].1.bids@.len(),
                nb == self.market.sales@[i as int].1.bids@[j as int].1@.len(),
                0 <= idx <= nb,
                forall|t: int|
                    0 <= t < idx ==> !crate::bid::bid_matches(
                        #[trigger] self.market.sales@[i as int].1.bids@[j as int].1@[t],
                        owner_id@,
                        price,
                    ),
                found ==> idx < nb && crate::bid::bid_matches(
                    self.market.sales@[i as int].1.bids@[j as int].1@[idx as int],
                    owner_id@,
                    price,
                ),
            decreases nb - idx, (if found { 0int } else { 1int }),
    {
            let b = &self.market.sales[i].1.bids[j].1[idx];
            if b.owner_id == *owner_id && b.price == price {
                found = true;
            } else {
                idx = idx + 1;
            }
        }
        if !found {
            return Err(MarketError::NoSuchBid);
        }
        let ghost k = key@;
        let ghost presales = self.market.sales@;
        let ghost sale0 = presales[i as int].1;
        let ghost bucket0 = sale0.bids@[j as int].1@;
        proof {
            lemma_s_swap_remove(presales, i as int);
        }
        let (kstr, mut sale) = self.market.sales.swap_remove(i);
        proof {
            lemma_s_swap_remove(sale.bids@, j as int);
        }
        let (ftstr, mut bucket) = sale.bids.swap_remove(j);
        let bid = bucket.remove(idx);
        if bucket.len() > 0 {
            proof {
                crate::table::lemma_s_push(sale.bids@, (ftstr, bucket));
                crate::bid::lemma_bucket_remove(bucket0, idx as int);
            }
            sale.bids.push((ftstr, bucket));
        }
        proof {
            crate::table::lemma_s_push(self.market.sales@, (kstr, sale));
        }
        self.market.sales.push((kstr, sale));
        proof {
            let news = self.market.sales@;
            assert forall|x: int| #![trigger news[x]] 0 <= x < news.len() implies ((news[x].0@ == k
                && news[x].1 == sale) || (exists|y: int|
                0 <= y < presales.len() && news[x] == #[trigger] presales[y])) by {
                if x < news.len() - 1 {
                    let n = presales.len() as int;
                    let sa = if x == i {
                        n - 1
                    } else {
                        x
                    };
                    assert(news[x] == presales[sa]);
                }
            }
            assert(sale_wf(sale, self.market.bid_history_length as int)) by {
                let prebids = sale0.bids@;
                assert(skeys_distinct(sale.bids@));
                assert forall|x: int|
                    0 <= x < sale.bids@.len() implies crate::bid::bucket_wf(
                    (#[trigger] sale.bids@[x]).1@,
                    self.market.bid_history_length as int,
                ) by {
                    if x < sale.bids@.len() - 1 || bucket0.len() == 1 {
                        let n = prebids.len() as int;
                        let sa = if x == j {
                            n - 1
                        } else {
                            x
                        };
                        assert(sale.bids@[x] == prebids[sa]);
                    } else if x == sale.bids@.len() - 1 && bucket0.len() > 1 {
                        assert(sale.bids@[x].1@ == bucket0.remove(idx as int));
                    }
                }
            }
            assert(self.market.sales_map() == pre.market.sales_map().insert(k, sale));
            lemma_wf_after_sale_update(pre, *self, k, sale);
            assert(s_at(news, k) == sale) by {
                lemma_s_at_index(news, news.len() - 1);
            }
            assert forall|m: Seq<char>|
                pre.market.sales_map().dom().contains(m) && m != k implies self.market.sales_map()[m]
                == pre.market.sales_map()[m] by {}
            assert(self.market.sales_map().dom() =~= pre.market.sales_map().dom());
            let bids0 = sale0.bids@;
            let bids1 = sale.bids@;
            assert(bids0[j as int].0@ == ft_token_id@);
            assert(s_map(bids0.update(j as int, bids0.last()).drop_last()) == s_map(bids0).remove(
                ft_token_id@,
            ));
            assert forall|ft2: Seq<char>| ft2 != ft_token_id@ implies s_has(bids1, ft2) == s_has(
                bids0,
                ft2,
            ) by {
                assert(s_map(bids1).dom().contains(ft2) == s_map(bids0).dom().contains(ft2));
            }
            assert forall|ft2: Seq<char>| ft2 != ft_token_id@ && s_has(bids0, ft2) implies s_at(
                bids1,
                ft2,
            ) == s_at(bids0, ft2) by {
                assert(s_map(bids1)[ft2] == s_map(bids0)[ft2]);
            }
            if bucket0.len() == 1 {
                assert(!s_has(bids1, ft_token_id@)) by {
                    assert(!s_map(bids1).dom().contains(ft_token_id@));
                }
            } else {
                assert(s_has(bids1, ft_token_id@)) by {
                    assert(s_map(bids1).dom().contains(ft_token_id@));
                }
            }
            assert(exists|idx2: int|
                {
                    &&& 0 <= idx2 < bucket0.len()
                    &&& crate::bid::bid_matches(#[trigger] bucket0[idx2], owner_id@, price)
                    &&& bid == bucket0[idx2]
                    &&& forall|t: int|
                        0 <= t < idx2 ==> !crate::bid::bid_matches(
                            #[trigger] bucket0[t],
                            owner_id@,
                            price,
                        )
                    &&& if bucket0.len() == 1 {
                        !s_has(sale.bids@, ft_token_id@)
                    } else {
                        s_has(sale.bids@, ft_token_id@) && s_at(sale.bids@, ft_token_id@)@
                            == bucket0.remove(idx2)
                    }
                }) by {
                assert(bucket0[idx as int] == bid);
                if bucket0.len() > 1 {
                    assert(s_at(sale.bids@, ft_token_id@) == sale.bids@.last().1) by {
                        lemma_s_at_index(sale.bids@, sale.bids@.len() - 1);
                    }
                    assert(0 <= idx as int && (idx as int) < bucket0.len() && crate::bid::bid_matches(
                        bucket0[idx as int],
                        owner_id@,
                        price,
                    ) && bid == bucket0[idx as int] && (forall|t: int|
                        0 <= t < idx as int ==> !crate::bid::bid_matches(
                            #[trigger] bucket0[t],
                            owner_id@,
                            price,
                        )) && s_has(sale.bids@, ft_token_id@) && s_at(sale.bids@, ft_token_id@)@
                        == bucket0.remove(idx as int));
                } else {
                    assert(0 <= idx as int && (idx as int) < bucket0.len() && crate::bid::bid_matches(
                        bucket0[idx as int],
                        owner_id@,
                        price,
                    ) && bid == bucket0[idx as int] && (forall|t: int|
                        0 <= t < idx as int ==> !crate::bid::bid_matches(
                            #[trigger] bucket0[t],
                            owner_id@,
                            price,
                        )) && !s_has(sale.bids@, ft_token_id@));
                }
            }
        }
        Ok(bid)
    }
}

} // verus!
