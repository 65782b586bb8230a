//! Fixed-price sales: the listing record, its views, and the settlement data
//! handed to the runtime shell.
use vstd::prelude::*;

use crate::bid::{bids_wf, Bid, Bids};
use crate::common::{
    AccountId, FundTransfer, FungibleTokenId, MarketError, Origins, TokenId, TokenType,
};
use crate::fee::Fees;
use crate::table::{
    lemma_s_at_index, lemma_s_push, lemma_s_replace, lemma_s_swap_remove, s_at, s_find, s_has,
    s_map, skeys_distinct,
};

verus! {

/// Default cap on the number of bids kept per currency.
pub const BID_HISTORY_LENGTH_DEFAULT: u8 = 5;

/// Asking prices of a sale: currency -> fee-exclusive price.
pub type SaleConditions = Vec<(FungibleTokenId, u128)>;

/// Identifier of a token series inside an NFT contract.
pub type TokenSeriesId = String;

/// A fixed-price listing.
#[derive(Debug)]
pub struct Sale {
    pub owner_id: AccountId,
    pub approval_id: u64,
    pub nft_contract_id: AccountId,
    pub token_id: TokenId,
    pub sale_conditions: SaleConditions,
    pub bids: Bids,
    pub created_at: u64,
    pub token_type: TokenType,
    pub start: Option<u64>,
    pub end: Option<u64>,
    pub origins: Origins,
}

/// Read-only view of a sale returned by the query surface.
#[derive(Debug)]
pub struct SaleJson {
    pub owner_id: AccountId,
    pub nft_contract_id: AccountId,
    pub token_id: TokenId,
    pub sale_conditions: SaleConditions,
    pub bids: Bids,
    pub created_at: u64,
    pub token_type: TokenType,
    pub start: Option<u64>,
    pub end: Option<u64>,
    pub origins: Origins,
}

/// A listing of a whole token series (kept for the wire surface; the core
/// sale/auction engine does not consume it).
#[derive(Debug)]
pub struct SeriesSale {
    pub owner_id: AccountId,
    pub nft_contract_id: AccountId,
    pub series_id: String,
    pub sale_conditions: SaleConditions,
    pub created_at: u64,
    pub copies: u64,
}

/// Arguments of a direct purchase request.
#[derive(Debug)]
pub struct PurchaseArgs {
    pub nft_contract_id: AccountId,
    pub token_id: TokenId,
}

/// Payout split reported by the token contract during settlement:
/// recipient -> amount.
#[derive(Debug)]
pub struct Payout {
    pub payout: Vec<(AccountId, u128)>,
}

/// The asynchronous transfer request issued by the first settlement phase.
/// The runtime shell forwards it to the token contract and later hands the
/// reported payout (or the failure) to the matching resolve call.
#[derive(Debug)]
pub struct SettlementRequest {
    /// Buyer: receiver of the token.
    pub receiver_id: AccountId,
    pub token_id: TokenId,
    pub approval_id: u64,
    /// Buyer-side and seller-side fee maps, protocol fee already included.
    pub fees: Fees,
    /// Gross price backing the payout computation.
    pub price: u128,
    /// Upper bound on payout entries the token contract may report.
    pub max_len_payout: u32,
    pub nft_contract_id: AccountId,
    /// Currency of the payment.
    pub ft_token_id: FungibleTokenId,
}

/// What a sale call produced: either the first settlement phase was entered
/// (the sale is removed and the shell must perform the transfer request and
/// later resolve it), or a bid was recorded (with the eviction refund, if
/// one was owed).
#[derive(Debug)]
pub enum OfferOutcome {
    Purchase { request: SettlementRequest, sale: Sale },
    BidAdded { refund: Option<FundTransfer> },
}

/// Sum of the amounts of a payout split.
pub open spec fn payout_sum(s: Seq<(AccountId, u128)>) -> int
    decreases s.len(),
{
    if s.len() == 0 {
        0
    } else {
        payout_sum(s.drop_last()) + s.last().1
    }
}

/// One more entry adds its amount to the prefix sum.
pub proof fn lemma_payout_sum_take(s: Seq<(AccountId, u128)>, i: int)
    requires
        0 <= i < s.len(),
    ensures
        payout_sum(s.take(i + 1)) == payout_sum(s.take(i)) + s[i].1,
{
    assert(s.take(i + 1).drop_last() =~= s.take(i));
    assert(s.take(i + 1).last() == s[i]);
}

/// Prefix sums never exceed the whole sum.
pub proof fn lemma_payout_sum_prefix(s: Seq<(AccountId, u128)>, i: int)
    requires
        0 <= i <= s.len(),
    ensures
        payout_sum(s.take(i)) <= payout_sum(s),
    decreases s.len() - i,
{
    if i < s.len() {
        lemma_payout_sum_take(s, i);
        lemma_payout_sum_prefix(s, i + 1);
    } else {
        assert(s.take(i) =~= s);
    }
}

/// The settlement protocol accepts a payout split that has at least one and,
/// together with the pending refunds, at most ten entries, and whose amounts
/// account for the gross price up to one unit of rounding slack.
pub open spec fn payout_valid(p: Payout, price: u128, refund_buckets: int) -> bool {
    &&& p.payout@.len() + refund_buckets <= 10
    &&& p.payout@.len() >= 1
    &&& payout_sum(p.payout@) <= price
    &&& price - payout_sum(p.payout@) <= 1
}

/// Law: a valid payout split conserves value. The amounts disbursed plus the
/// rounding slack equal the gross price exactly, and the slack is at most
/// one unit.
pub proof fn lemma_settlement_conservation(p: Payout, price: u128, refund_buckets: int)
    requires
        payout_valid(p, price, refund_buckets),
    ensures
        ({
            let slack = price - payout_sum(p.payout@);
            0 <= slack <= 1 && payout_sum(p.payout@) + slack == price
        }),
{
}

/// The payout entries as transfer instructions in the given currency.
pub open spec fn payout_transfer_views(ft: Seq<char>, s: Seq<(AccountId, u128)>) -> Seq<
    (Seq<char>, Seq<char>, u128),
> {
    s.map_values(|e: (AccountId, u128)| (ft, e.0@, e.1))
}

/// `r` is `s` with the weight of `acct` set to `w`: replaced in place when
/// the account already holds a share, appended otherwise.
pub open spec fn with_fee_entry(
    r: Seq<(AccountId, u32)>,
    s: Seq<(AccountId, u32)>,
    acct: Seq<char>,
    w: u32,
) -> bool {
    if s_has(s, acct) {
        exists|i: int|
            0 <= i < s.len() && (#[trigger] s[i].0)@ == acct && r == s.update(i, (s[i].0, w))
    } else {
        r.len() == s.len() + 1 && r.drop_last() == s && r.last().0@ == acct && r.last().1 == w
    }
}

/// Sets the weight of `acct` in the fee-share set to `w`.
pub fn add_fee_entry(shares: &mut Origins, acct: &AccountId, w: u32)
    ensures
        with_fee_entry(final(shares)@, old(shares)@, acct@, w),
{
    match s_find(shares, acct) {
        Some(i) => {
            let key = shares[i].0.clone();
            let ghost pre = shares@;
            shares[i] = (key, w);
            proof {
                assert(pre[i as int].0@ == acct@);
                assert(key == pre[i as int].0);
                assert(shares@ == pre.update(i as int, (pre[i as int].0, w)));
                assert(s_has(pre, acct@));
            }
        },
        None => {
            let ghost pre = shares@;
            shares.push((acct.clone(), w));
            proof {
                assert(shares@.drop_last() =~= pre);
                assert(shares@.last().0@ == acct@);
            }
        },
    }
}

/// What opening a sale did, or why it was rejected. On success the sale
/// stands under its listing key with an empty ledger, registered in all
/// three discovery indices (which `market_wf` keeps consistent), and the
/// returned view mirrors it; on a rejection nothing changed.
pub open spec fn sale_started_post(
    pre: crate::Market,
    post: crate::Market,
    args: crate::market_core::SaleArgs,
    token_id: TokenId,
    owner_id: AccountId,
    approval_id: u64,
    nft_contract_id: AccountId,
    signer: Seq<char>,
    now: u64,
    r: Result<SaleJson, MarketError>,
) -> bool {
    let k = crate::common::sale_key_view(nft_contract_id@, token_id@);
    let sm = pre.market.sales_map();
    let all_supported = forall|i: int|
        0 <= i < args.sale_conditions@.len() ==> pre.market.supports_ft(
            (#[trigger] args.sale_conditions@[i]).0@,
        );
    let fresh = !sm.dom().contains(k);
    let paid = if pre.market.deposits_map().dom().contains(signer) {
        pre.market.deposits_map()[signer] as int
    } else {
        0
    };
    let occupied_n = if s_has(pre.market.by_owner_id@, owner_id@) {
        s_at(pre.market.by_owner_id@, owner_id@)@.len() as int
    } else {
        0
    };
    let occ_fits = occupied_n * (crate::STORAGE_PER_SALE as int) <= u128::MAX as int;
    let enough = paid > occupied_n * (crate::STORAGE_PER_SALE as int);
    let tt_ok = match args.token_type {
        Some(tt) => crate::common::spec_contains_str(token_id@, tt@),
        None => true,
    };
    let start1: u64 = if args.start is Some {
        args.start->0
    } else {
        now
    };
    match r {
        Ok(json) => {
            &&& all_supported
            &&& fresh
            &&& occ_fits
            &&& enough
            &&& tt_ok
            &&& crate::inner::same_but_sales(post, pre)
            &&& post.market.sales_map().dom() == sm.dom().insert(k)
            &&& forall|m: Seq<char>|
                sm.dom().contains(m) && m != k ==> post.market.sales_map()[m] == sm[m]
            &&& ({
                let s1 = post.market.sales_map()[k];
                &&& s1.owner_id@ == owner_id@
                &&& s1.approval_id == approval_id
                &&& s1.nft_contract_id@ == nft_contract_id@
                &&& s1.token_id@ == token_id@
                &&& s1.sale_conditions == args.sale_conditions
                &&& s1.bids@.len() == 0
                &&& s1.created_at == now
                &&& (s1.token_type is Some <==> args.token_type is Some)
                &&& (args.token_type is Some ==> s1.token_type->0@ == args.token_type->0@)
                &&& s1.start == Some(start1)
                &&& s1.end == args.end
                &&& s1.origins@ == crate::bid::spec_opt_origins(args.origins)
            })
            &&& json.owner_id@ == owner_id@
            &&& json.nft_contract_id@ == nft_contract_id@
            &&& json.token_id@ == token_id@
            &&& json.sale_conditions@ == args.sale_conditions@
            &&& json.bids@.len() == 0
            &&& json.created_at == now
            &&& (json.token_type is Some <==> args.token_type is Some)
            &&& (args.token_type is Some ==> json.token_type->0@ == args.token_type->0@)
            &&& json.start == Some(start1)
            &&& json.end == args.end
            &&& json.origins@ == crate::bid::spec_opt_origins(args.origins)
        },
        Err(e) => {
            &&& post == pre
            &&& (e == MarketError::NotSupportedFt <==> !all_supported)
            &&& (e == MarketError::AlreadyExists <==> all_supported && !fresh)
            &&& (e == MarketError::Overflow <==> all_supported && fresh && !occ_fits)
            &&& (e == MarketError::InsufficientStorage <==> all_supported && fresh && occ_fits
                && !enough)
            &&& (e == MarketError::TokenTypeMismatch <==> all_supported && fresh && occ_fits
                && enough && !tt_ok)
            &&& (e == MarketError::NotSupportedFt || e == MarketError::AlreadyExists || e
                == MarketError::Overflow || e == MarketError::InsufficientStorage || e
                == MarketError::TokenTypeMismatch)
        },
    }
}

/// Sale well-formedness: distinct price-table keys and a well-formed ledger
/// under the given history cap.
pub open spec fn sale_wf(s: Sale, cap: int) -> bool {
    &&& skeys_distinct(s.sale_conditions@)
    &&& bids_wf(s.bids@, cap)
}

/// The sale is inside its availability window at time `now`. The window is
/// half-open, `[start, end)`: the sale is available from its start and no
/// longer at its end; an unset bound never restricts.
pub open spec fn spec_sale_in_limits(s: Sale, now: u64) -> bool {
    &&& match s.start {
        Some(st) => st <= now,
        None => true,
    }
    &&& match s.end {
        Some(e) => now < e,
        None => true,
    }
}

impl Sale {
    /// Whether the sale is inside its availability window at time `now`.
    pub fn in_limits(&self, now: u64) -> (r: bool)
        ensures
            r == spec_sale_in_limits(*self, now),
    {
        let mut res = true;
        if let Some(start) = self.start {
            res = res && start <= now;
        }
        if let Some(end) = self.end {
            res = res && now < end;
        }
        res
    }

    /// An exact copy of the per-currency price table.
    pub fn copy_conditions(conditions: &SaleConditions) -> (r: SaleConditions)
        ensures
            r@ == conditions@,
    {
        let mut out: SaleConditions = Vec::new();
        let n = conditions.len();
        let mut i: usize = 0;
        while i < n
            invariant
                0 <= i <= n,
                n == conditions@.len(),
                out@ =~= conditions@.take(i as int),
            decreases n - i,
        {
            let p = conditions[i].1;
            out.push((conditions[i].0.clone(), p));
            proof {
                assert(out@ =~= conditions@.take(i + 1));
            }
            i = i + 1;
        }
        proof {
            assert(conditions@.take(n as int) =~= conditions@);
        }
        out
    }

    /// Pushes the end of the availability window forward by `time`. Returns
    /// whether there was an end to extend.
    pub fn extend(&mut self, time: u64) -> (r: bool)
        requires
            match old(self).end {
                Some(e) => e + time <= u64::MAX,
                None => true,
            },
        ensures
            match old(self).end {
                Some(e) => r && *final(self) == Sale { end: Some((e + time) as u64), ..*old(self) },
                None => !r && *final(self) == *old(self),
            },
    {
        if let Some(end) = self.end {
            self.end = Some(end + time);
            true
        } else {
            false
        }
    }
}

impl crate::Market {
    /// Sets the asking price of the sale in the given currency. Owner-only;
    /// the currency must be supported and exactly one yocto unit must be
    /// attached.
    pub fn update_price(
        &mut self,
        nft_contract_id: AccountId,
        token_id: TokenId,
        ft_token_id: FungibleTokenId,
        price: u128,
        predecessor: AccountId,
        deposit: u128,
    ) -> (r: Result<(), MarketError>)
        requires
            crate::market_wf(*old(self)),
        ensures
            crate::market_wf(*final(self)),
            ({
                let k = crate::common::sale_key_view(nft_contract_id@, token_id@);
                let sm = old(self).market.sales_map();
                match r {
                    Ok(()) => {
                        &&& crate::inner::same_but_sales(*final(self), *old(self))
                        &&& deposit == 1
                        &&& sm.dom().contains(k)
                        &&& predecessor@ == sm[k].owner_id@
                        &&& old(self).market.supports_ft(ft_token_id@)
                        &&& final(self).market.sales_map().dom() == sm.dom()
                        &&& forall|m: Seq<char>|
                            sm.dom().contains(m) && m != k ==> final(self).market.sales_map()[m]
                                == sm[m]
                        &&& ({
                            let sale0 = sm[k];
                            let sale1 = final(self).market.sales_map()[k];
                            &&& crate::inner::same_directory_fields(sale1, sale0)
                            &&& sale1.approval_id == sale0.approval_id
                            &&& sale1.bids == sale0.bids
                            &&& sale1.created_at == sale0.created_at
                            &&& sale1.start == sale0.start
                            &&& sale1.end == sale0.end
                            &&& sale1.origins == sale0.origins
                            &&& s_has(sale1.sale_conditions@, ft_token_id@)
                            &&& s_at(sale1.sale_conditions@, ft_token_id@) == price
                            &&& forall|c2: Seq<char>|
                                c2 != ft_token_id@ ==> s_has(sale1.sale_conditions@, c2) == s_has(
                                    sale0.sale_conditions@,
                                    c2,
                                )
                            &&& forall|c2: Seq<char>|
                                c2 != ft_token_id@ && s_has(sale0.sale_conditions@, c2) ==> s_at(
                                    sale1.sale_conditions@,
                                    c2,
                                ) == s_at(sale0.sale_conditions@, c2)
                        })
                    },
                    Err(e) => {
                        &&& *final(self) == *old(self)
                        &&& (e == MarketError::NotOneYocto <==> deposit != 1)
                        &&& (e == MarketError::NoSale <==> deposit == 1 && !sm.dom().contains(k))
                        &&& (e == MarketError::NotOwner <==> deposit == 1 && sm.dom().contains(k)
                            && predecessor@ != sm[k].owner_id@)
                        &&& (e == MarketError::NotSupportedFt <==> deposit == 1 && sm.dom().contains(
                            k,
                        ) && predecessor@ == sm[k].owner_id@ && !old(self).market.supports_ft(
                            ft_token_id@,
                        ))
                        &&& (e == MarketError::NotOneYocto || e == MarketError::NoSale || e
                            == MarketError::NotOwner || e == MarketError::NotSupportedFt)
                    },
                }
            }),
    {
        if deposit != 1 {
            return Err(MarketError::NotOneYocto);
        }
        let ghost pre = *self;
        let key = crate::common::compose_sale_key(&nft_contract_id, &token_id);
        let i = match s_find(&self.market.sales, &key) {
            Some(i) => i,
            None => {
                return Err(MarketError::NoSale);
            },
        };
        proof {
            lemma_s_at_index(self.market.sales@, i as int);
        }
        if !(predecessor == self.market.sales[i].1.owner_id) {
            return Err(MarketError::NotOwner);
        }
        if !crate::table::set_contains(&self.market.ft_token_ids, &ft_token_id) {
            return Err(MarketError::NotSupportedFt);
        }
        let ghost k = key@;
        let ghost presales = self.market.sales@;
        let ghost sale0 = presales[i as int].1;
        proof {
            lemma_s_swap_remove(presales, i as int);
        }
        let (kstr, mut sale) = self.market.sales.swap_remove(i);
        let ghost precond = sale.sale_conditions@;
        match s_find(&sale.sale_conditions, &ft_token_id) {
            Some(c) => {
                let ckey = sale.sale_conditions[c].0.clone();
                proof {
                    lemma_s_replace(precond, c as int, (ckey, price));
                }
                sale.sale_conditions[c] = (ckey, price);
            },
            None => {
                proof {
                    lemma_s_push(precond, (ft_token_id, price));
                }
                sale.sale_conditions.push((ft_token_id, price));
            },
        }
        proof {
            lemma_s_push(self.market.sales@, (kstr, sale));
        }
        self.market.sales.push((kstr, sale));
        proof {
            let news = self.market.sales@;
            assert forall|x: int| #![trigger news[x]] 0 <= x < news.len() implies ((news[x].0@ == k
                && news[x].1 == sale) || (exists|y: int|
                0 <= y < presales.len() && news[x] == #[trigger] presales[y])) by {
                if x < news.len() - 1 {
                    let n = presales.len() as int;
                    let sa = if x == i {
                        n - 1
                    } else {
                        x
                    };
                    assert(news[x] == presales[sa]);
                }
            }
            assert(sale_wf(sale, self.market.bid_history_length as int));
            assert(self.market.sales_map() == pre.market.sales_map().insert(k, sale));
            crate::inner::lemma_wf_after_sale_update(pre, *self, k, sale);
            assert(s_at(news, k) == sale) by {
                lemma_s_at_index(news, news.len() - 1);
            }
            assert(self.market.sales_map().dom() =~= pre.market.sales_map().dom());
            let cond1 = sale.sale_conditions@;
            assert(s_has(cond1, ft_token_id@) && s_at(cond1, ft_token_id@) == price) by {
                if s_has(precond, ft_token_id@) {
                    assert(s_map(cond1) == s_map(precond).insert(ft_token_id@, price));
                    assert(s_map(cond1).dom().contains(ft_token_id@));
                    assert(s_map(cond1)[ft_token_id@] == price);
                } else {
                    lemma_s_at_index(cond1, cond1.len() - 1);
                }
            }
            assert forall|c2: Seq<char>| c2 != ft_token_id@ implies s_has(cond1, c2) == s_has(
                precond,
                c2,
            ) by {
                assert(s_map(cond1).dom().contains(c2) == s_map(precond).dom().contains(c2));
            }
            assert forall|c2: Seq<char>| c2 != ft_token_id@ && s_has(precond, c2) implies s_at(
                cond1,
                c2,
            ) == s_at(precond, c2) by {
                assert(s_map(cond1)[c2] == s_map(precond)[c2]);
            }
        }
        Ok(())
    }

    /// First settlement phase: irrevocably removes the sale, then hands back
    /// the asynchronous transfer request for the token contract (buyer- and
    /// seller-side fee maps with the protocol fee added) together with the
    /// removed sale, which the shell must pass on to `resolve_purchase`.
    ///
    /// Fails with `NoSale`, changing nothing, when the listing key is free.
    pub fn process_purchase(
        &mut self,
        nft_contract_id: AccountId,
        token_id: TokenId,
        ft_token_id: AccountId,
        price: u128,
        buyer_id: AccountId,
        origins: Origins,
        market_account: &AccountId,
    ) -> (r: Result<(SettlementRequest, Sale), MarketError>)
        requires
            crate::market_wf(*old(self)),
        ensures
            crate::market_wf(*final(self)),
            crate::inner::same_but_sales(*final(self), *old(self)),
            ({
                let k = crate::common::sale_key_view(nft_contract_id@, token_id@);
                let sm = old(self).market.sales_map();
                match r {
                    Ok((req, sale)) => {
                        &&& sm.dom().contains(k)
                        &&& sale == sm[k]
                        &&& final(self).market.sales_map() == sm.remove(k)
                        &&& req.receiver_id == buyer_id
                        &&& req.token_id == token_id
                        &&& req.approval_id == sale.approval_id
                        &&& req.price == price
                        &&& req.max_len_payout == 10
                        &&& req.nft_contract_id == nft_contract_id
                        &&& req.ft_token_id == ft_token_id
                        &&& with_fee_entry(
                            req.fees.buyer@,
                            origins@,
                            market_account@,
                            crate::fee::PROTOCOL_FEE as u32,
                        )
                        &&& with_fee_entry(
                            req.fees.seller@,
                            sale.origins@,
                            market_account@,
                            crate::fee::PROTOCOL_FEE as u32,
                        )
                    },
                    Err(e) => e == MarketError::NoSale && !sm.dom().contains(k) && *final(self)
                        == *old(self),
                }
            }),
    {
        let sale = match self.internal_remove_sale(nft_contract_id.clone(), token_id.clone()) {
            Ok(sale) => sale,
            Err(e) => {
                return Err(e);
            },
        };
        let mut buyer = origins;
        add_fee_entry(&mut buyer, market_account, crate::fee::PROTOCOL_FEE as u32);
        let mut seller_fee = crate::bid::copy_origins(&sale.origins);
        add_fee_entry(&mut seller_fee, market_account, crate::fee::PROTOCOL_FEE as u32);
        let fees = Fees { buyer, seller: seller_fee };
        let req = SettlementRequest {
            receiver_id: buyer_id,
            token_id,
            approval_id: sale.approval_id,
            fees,
            price,
            max_len_payout: 10,
            nft_contract_id,
            ft_token_id,
        };
        Ok((req, sale))
    }

    /// Second settlement phase for a sale, run when the asynchronous token
    /// transfer reports back. A missing or invalid payout split resolves to
    /// a refund: the buyer's full gross payment returns (directly for the
    /// native currency, through the currency's own refund path otherwise)
    /// and nothing is disbursed. A valid split resolves to disbursement:
    /// every remaining bid of the sale is refunded and every payout entry is
    /// paid exactly its listed amount.
    ///
    /// The returned balance mirrors the wire protocol: the full price when
    /// the shell has nothing left to reconcile in a fungible currency, zero
    /// when the payouts were already issued as explicit transfers.
    pub fn resolve_purchase(
        &self,
        ft_token_id: AccountId,
        buyer_id: AccountId,
        sale: Sale,
        price: u128,
        transfer_result: Option<Payout>,
    ) -> (out: (u128, Vec<FundTransfer>))
        ensures
            ({
                let is_near = ft_token_id@ == "near"@;
                let valid = transfer_result matches Some(p) && payout_valid(
                    p,
                    price,
                    sale.bids@.len() as int,
                );
                if valid {
                    let p = transfer_result->0;
                    &&& out.1@.map_values(|t: FundTransfer| crate::bid::transfer_view(t))
                        == crate::bid::ledger_refund_views(sale.bids@) + payout_transfer_views(
                        ft_token_id@,
                        p.payout@,
                    )
                    &&& out.0 == if is_near {
                        price
                    } else {
                        0u128
                    }
                } else {
                    &&& out.0 == price
                    &&& if is_near {
                        out.1@.len() == 1 && crate::bid::transfer_view(out.1@[0]) == (
                            ft_token_id@,
                            buyer_id@,
                            price,
                        )
                    } else {
                        out.1@.len() == 0
                    }
                }
            }),
    {
        let near: String = "near".to_owned();
        let is_near = ft_token_id == near;
        let valid: bool = match &transfer_result {
            Some(p) => {
                let lp = p.payout.len();
                if lp == 0 || lp > 10 || sale.bids.len() > 10 - lp {
                    false
                } else {
                    let mut remainder: u128 = price;
                    let mut under = false;
                    let mut t: usize = 0;
                    proof {
                        assert(p.payout@.take(0) =~= Seq::<(AccountId, u128)>::empty());
                    }
                    while t < lp && !under
                        invariant
                            0 <= t <= lp,
                            lp == p.payout@.len(),
                            !under ==> remainder == price - payout_sum(p.payout@.take(t as int)),
                            under ==> payout_sum(p.payout@) > price,
                        decreases lp - t, (if under { 0int } else { 1int }),
                    {
                        let v = p.payout[t].1;
                        match remainder.checked_sub(v) {
                            Some(r2) => {
                                proof {
                                    lemma_payout_sum_take(p.payout@, t as int);
                                }
                                remainder = r2;
                                t = t + 1;
                            },
                            None => {
                                proof {
                                    lemma_payout_sum_take(p.payout@, t as int);
                                    lemma_payout_sum_prefix(p.payout@, t + 1);
                                }
                                under = true;
                            },
                        }
                    }
                    proof {
                        if !under {
                            assert(p.payout@.take(lp as int) =~= p.payout@);
                        }
                    }
                    !under && remainder <= 1
                }
            },
            None => false,
        };
        if valid {
            let p = match transfer_result {
                Some(p) => p,
                None => {
                    proof {
                        assert(false);
                    }
                    return (price, Vec::new());
                },
            };
            let mut transfers = crate::Market::refund_all_bids(&sale.bids);
            let ghost base = transfers@.map_values(|t: FundTransfer| crate::bid::transfer_view(t));
            let lp = p.payout.len();
            let mut t: usize = 0;
            proof {
                assert(payout_transfer_views(ft_token_id@, p.payout@.take(0)) =~= Seq::<
                    (Seq<char>, Seq<char>, u128),
                >::empty());
                assert(transfers@.map_values(|t: FundTransfer| crate::bid::transfer_view(t)) =~= base
                    + payout_transfer_views(ft_token_id@, p.payout@.take(0)));
            }
            while t < lp
                invariant
                    0 <= t <= lp,
                    lp == p.payout@.len(),
                    transfers@.map_values(|t: FundTransfer| crate::bid::transfer_view(t)) == base
                        + payout_transfer_views(ft_token_id@, p.payout@.take(t as int)),
                decreases lp - t,
            {
                let amount = p.payout[t].1;
                let tr = FundTransfer {
                    ft_token_id: ft_token_id.clone(),
                    receiver_id: p.payout[t].0.clone(),
                    amount,
                };
                let ghost tr0 = tr;
                let ghost pret = transfers@;
                transfers.push(tr);
                proof {
                    let f = |t: FundTransfer| crate::bid::transfer_view(t);
                    assert(transfers@ == pret.push(tr0));
                    assert(transfers@.map_values(f) =~= pret.map_values(f).push(f(tr0)));
                    assert(payout_transfer_views(ft_token_id@, p.payout@.take(t + 1))
                        =~= payout_transfer_views(ft_token_id@, p.payout@.take(t as int)).push(
                        (ft_token_id@, p.payout@[t as int].0@, p.payout@[t as int].1),
                    ));
                    assert(transfers@.map_values(f) =~= base + payout_transfer_views(
                        ft_token_id@,
                        p.payout@.take(t + 1),
                    ));
                }
                t = t + 1;
            }
            proof {
                assert(p.payout@.take(lp as int) =~= p.payout@);
            }
            if is_near {
                (price, transfers)
            } else {
                (0, transfers)
            }
        } else {
            if is_near {
                let mut transfers: Vec<FundTransfer> = Vec::new();
                transfers.push(
                    FundTransfer { ft_token_id, receiver_id: buyer_id, amount: price },
                );
                (price, transfers)
            } else {
                (price, Vec::new())
            }
        }
    }

    /// Offer to buy the token: an attached payment that exactly meets the
    /// fee-inclusive asking price triggers settlement at once; any other
    /// positive payment is recorded as a bid (validity window defaulting to
    /// `now`, open-ended unless a duration is given).
    ///
    /// Rejected, changing nothing: unknown listing; sale outside its window;
    /// the owner bidding; a currency without an asking price; a zero
    /// payment; arithmetic that cannot fit; and the bid path's own
    /// rejections.
    pub fn offer(
        &mut self,
        nft_contract_id: AccountId,
        token_id: TokenId,
        ft_token_id: AccountId,
        start: Option<u64>,
        duration: Option<u64>,
        origins: Option<Origins>,
        buyer_id: AccountId,
        deposit: u128,
        now: u64,
        market_account: &AccountId,
    ) -> (r: Result<OfferOutcome, MarketError>)
        requires
            crate::market_wf(*old(self)),
        ensures
            crate::market_wf(*final(self)),
            ({
                let k = crate::common::sale_key_view(nft_contract_id@, token_id@);
                let sm = old(self).market.sales_map();
                let tw = crate::fee::sum_weights(crate::bid::spec_opt_origins(origins));
                let has_sale = sm.dom().contains(k);
                let in_lim = has_sale && spec_sale_in_limits(sm[k], now);
                let not_own = in_lim && sm[k].owner_id@ != buyer_id@;
                let has_price = not_own && s_has(sm[k].sale_conditions@, ft_token_id@);
                let listed = s_at(sm[k].sale_conditions@, ft_token_id@);
                let pos_dep = has_price && deposit > 0;
                let pw_ok = pos_dep && tw <= u32::MAX && (listed as int) * (
                crate::fee::PAYOUT_TOTAL_VALUE as int + crate::fee::PROTOCOL_FEE as int + tw)
                    <= u128::MAX as int;
                let gross = crate::fee::spec_price_with_fees(listed as int, tw);
                let start1: u64 = if start is Some {
                    start->0
                } else {
                    now
                };
                match r {
                    Ok(outcome) => {
                        &&& pw_ok
                        &&& match outcome {
                            OfferOutcome::Purchase { request, sale } => {
                                &&& deposit == gross
                                &&& sale == sm[k]
                                &&& final(self).market.sales_map() == sm.remove(k)
                                &&& crate::inner::same_but_sales(*final(self), *old(self))
                                &&& request.receiver_id == buyer_id
                                &&& request.token_id == token_id
                                &&& request.approval_id == sm[k].approval_id
                                &&& request.price == deposit
                                &&& request.max_len_payout == 10
                                &&& request.nft_contract_id == nft_contract_id
                                &&& request.ft_token_id == ft_token_id
                                &&& with_fee_entry(
                                    request.fees.buyer@,
                                    crate::bid::spec_opt_origins(origins),
                                    market_account@,
                                    crate::fee::PROTOCOL_FEE as u32,
                                )
                                &&& with_fee_entry(
                                    request.fees.seller@,
                                    sm[k].origins@,
                                    market_account@,
                                    crate::fee::PROTOCOL_FEE as u32,
                                )
                            },
                            OfferOutcome::BidAdded { refund } => {
                                &&& deposit != gross
                                &&& (duration is Some ==> start1 + duration->0 <= u64::MAX)
                                &&& crate::bid::bid_added_post(
                                    *old(self),
                                    *final(self),
                                    k,
                                    ft_token_id@,
                                    deposit,
                                    buyer_id,
                                    start1,
                                    match duration {
                                        Some(d) => Some((start1 + d) as u64),
                                        None => None,
                                    },
                                    origins,
                                    refund,
                                )
                            },
                        }
                    },
                    Err(e) => {
                        let bidpath = pw_ok && deposit != gross;
                        let end_ok = match duration {
                            Some(d) => start1 + d <= u64::MAX,
                            None => true,
                        };
                        let mkt_ft = old(self).market.supports_ft(ft_token_id@);
                        &&& *final(self) == *old(self)
                        &&& (e == MarketError::NoSale <==> !has_sale)
                        &&& (e == MarketError::SaleNotInProgress <==> has_sale
                            && !spec_sale_in_limits(sm[k], now))
                        &&& (e == MarketError::OwnerCannotBid <==> in_lim && sm[k].owner_id@
                            == buyer_id@)
                        &&& (e == MarketError::NotSupportedFt <==> (not_own && !s_has(
                            sm[k].sale_conditions@,
                            ft_token_id@,
                        )) || (bidpath && end_ok && !mkt_ft))
                        &&& (e == MarketError::ZeroDeposit <==> has_price && deposit == 0)
                        &&& (e == MarketError::Overflow <==> (pos_dep && (tw > u32::MAX || (tw
                            <= u32::MAX && (listed as int) * (crate::fee::PAYOUT_TOTAL_VALUE as int
                            + crate::fee::PROTOCOL_FEE as int + tw) > u128::MAX as int))) || (
                        bidpath && !end_ok) || (bidpath && end_ok && mkt_ft && tw
                            < crate::fee::ORIGINS_CAP as int && (deposit as int) * (tw
                            + crate::fee::PROTOCOL_FEE as int) > u128::MAX as int))
                        &&& (e == MarketError::MaxOriginsExceeded <==> bidpath && end_ok && mkt_ft
                            && crate::fee::ORIGINS_CAP as int <= tw)
                        &&& (e == MarketError::BidTooLow <==> bidpath && end_ok && mkt_ft && tw
                            < crate::fee::ORIGINS_CAP as int && (deposit as int) * (tw
                            + crate::fee::PROTOCOL_FEE as int) <= u128::MAX as int && s_has(
                            sm[k].bids@,
                            ft_token_id@,
                        ) && crate::fee::spec_actual_amount(deposit as int, tw)
                            <= crate::bid::spec_bid_actual(
                            s_at(sm[k].bids@, ft_token_id@)@.last(),
                        ))
                        &&& (e == MarketError::NoSale || e == MarketError::SaleNotInProgress || e
                            == MarketError::OwnerCannotBid || e == MarketError::NotSupportedFt || e
                            == MarketError::ZeroDeposit || e == MarketError::Overflow || e
                            == MarketError::MaxOriginsExceeded || e == MarketError::BidTooLow)
                    },
                }
            }),
    {
        let key = crate::common::compose_sale_key(&nft_contract_id, &token_id);
        let i = match s_find(&self.market.sales, &key) {
            Some(i) => i,
            None => {
                return Err(MarketError::NoSale);
            },
        };
        proof {
            lemma_s_at_index(self.market.sales@, i as int);
        }
        if !self.market.sales[i].1.in_limits(now) {
            return Err(MarketError::SaleNotInProgress);
        }
        if self.market.sales[i].1.owner_id == buyer_id {
            return Err(MarketError::OwnerCannotBid);
        }
        let price: u128 = match s_find(&self.market.sales[i].1.sale_conditions, &ft_token_id) {
            Some(c) => {
                proof {
                    lemma_s_at_index(self.market.sales@[i as int].1.sale_conditions@, c as int);
                }
                self.market.sales[i].1.sale_conditions[c].1
            },
            None => {
                return Err(MarketError::NotSupportedFt);
            },
        };
        if deposit == 0 {
            return Err(MarketError::ZeroDeposit);
        }
        let gross = match crate::fee::calculate_price_with_fees(price, origins.as_ref()) {
            Ok(g) => g,
            Err(e) => {
                return Err(e);
            },
        };
        if deposit == gross {
            let origins_owned = match origins {
                Some(o) => o,
                None => Vec::new(),
            };
            match self.process_purchase(
                nft_contract_id,
                token_id,
                ft_token_id,
                deposit,
                buyer_id,
                origins_owned,
                market_account,
            ) {
                Ok((request, sale)) => Ok(OfferOutcome::Purchase { request, sale }),
                Err(_) => {
                    proof {
                        assert(false);
                    }
                    Err(MarketError::NoSale)
                },
            }
        } else {
            let start1: u64 = match start {
                Some(s) => s,
                None => now,
            };
            let end1: Option<u64> = match duration {
                Some(d) => match start1.checked_add(d) {
                    Some(e) => Some(e),
                    None => {
                        return Err(MarketError::Overflow);
                    },
                },
                None => None,
            };
            match self.add_bid(key, deposit, ft_token_id, buyer_id, start1, end1, origins) {
                Ok(refund) => Ok(OfferOutcome::BidAdded { refund }),
                Err(e) => Err(e),
            }
        }
    }

    /// Opens a fixed-price sale from an approval notification: validates the
    /// price table's currencies, the listing key's freshness, the owner's
    /// prepaid storage and the token-type tag, then stores the sale and
    /// registers it in the three discovery indices.
    pub fn start_sale(
        &mut self,
        args: crate::market_core::SaleArgs,
        token_id: TokenId,
        owner_id: AccountId,
        approval_id: u64,
        nft_contract_id: AccountId,
        signer_id: &AccountId,
        now: u64,
    ) -> (r: Result<SaleJson, MarketError>)
        requires
            crate::market_wf(*old(self)),
            skeys_distinct(args.sale_conditions@),
        ensures
            crate::market_wf(*final(self)),
            sale_started_post(
                *old(self),
                *final(self),
                args,
                token_id,
                owner_id,
                approval_id,
                nft_contract_id,
                signer_id@,
                now,
                r,
            ),
    {
        let ghost pre = *self;
        let n_cond = args.sale_conditions.len();
        let mut ci: usize = 0;
        while ci < n_cond
            invariant
                0 <= ci <= n_cond,
                n_cond == args.sale_conditions@.len(),
                *self == *old(self),
                crate::market_wf(*old(self)),
                forall|x: int|
                    0 <= x < ci ==> old(self).market.supports_ft(
                        (#[trigger] args.sale_conditions@[x]).0@,
                    ),
            decreases n_cond - ci,
        {
            if !crate::table::set_contains(&self.market.ft_token_ids, &args.sale_conditions[ci].0)
            {
                return Err(MarketError::NotSupportedFt);
            }
            ci = ci + 1;
        }
        let key = crate::common::compose_sale_key(&nft_contract_id, &token_id);
        let ghost k = key@;
        match s_find(&self.market.sales, &key) {
            Some(i) => {
                proof {
                    lemma_s_at_index(self.market.sales@, i as int);
                }
                return Err(MarketError::AlreadyExists);
            },
            None => {},
        }
        let paid: u128 = match s_find(&self.market.storage_deposits, signer_id) {
            Some(d) => {
                proof {
                    lemma_s_at_index(self.market.storage_deposits@, d as int);
                }
                self.market.storage_deposits[d].1
            },
            None => 0,
        };
        let occ_n: usize = match s_find(&self.market.by_owner_id, &owner_id) {
            Some(oi) => {
                proof {
                    lemma_s_at_index(self.market.by_owner_id@, oi as int);
                }
                self.market.by_owner_id[oi].1.len()
            },
            None => 0,
        };
        let occupied: u128 = match (occ_n as u128).checked_mul(crate::STORAGE_PER_SALE) {
            Some(v) => v,
            None => {
                return Err(MarketError::Overflow);
            },
        };
        if paid <= occupied {
            return Err(MarketError::InsufficientStorage);
        }
        let token_type: Option<String> = match &args.token_type {
            Some(tt) => {
                if !crate::common::str_contains(&token_id, tt) {
                    return Err(MarketError::TokenTypeMismatch);
                }
                Some(tt.clone())
            },
            None => None,
        };
        let token_type_for_idx: Option<String> = match &token_type {
            Some(tt) => Some(tt.clone()),
            None => None,
        };
        let start1: u64 = match args.start {
            Some(s) => s,
            None => now,
        };
        let origins_owned: Origins = match args.origins {
            Some(o) => o,
            None => Vec::new(),
        };
        let json = SaleJson {
            owner_id: owner_id.clone(),
            nft_contract_id: nft_contract_id.clone(),
            token_id: token_id.clone(),
            sale_conditions: Sale::copy_conditions(&args.sale_conditions),
            bids: Vec::new(),
            created_at: now,
            token_type: match &token_type {
                Some(tt) => Some(tt.clone()),
                None => None,
            },
            start: Some(start1),
            end: args.end,
            origins: crate::bid::copy_origins(&origins_owned),
        };
        let sale = Sale {
            owner_id: owner_id.clone(),
            approval_id,
            nft_contract_id: nft_contract_id.clone(),
            token_id: token_id.clone(),
            sale_conditions: args.sale_conditions,
            bids: Vec::new(),
            created_at: now,
            token_type,
            start: Some(start1),
            end: args.end,
            origins: origins_owned,
        };
        let key_owner = key.clone();
        let key_type = key.clone();
        let ghost presales = self.market.sales@;
        proof {
            lemma_s_push(presales, (key, sale));
        }
        self.market.sales.push((key, sale));
        let ghost news = self.market.sales@;
        proof {
            assert(crate::sales_wf(self.market)) by {
                assert forall|a: int| 0 <= a < news.len() implies crate::sale::sale_wf(
                    #[trigger] news[a].1,
                    self.market.bid_history_length as int,
                ) && news[a].0@ == crate::common::sale_key_view(
                    news[a].1.nft_contract_id@,
                    news[a].1.token_id@,
                ) by {
                    if a < news.len() - 1 {
                        assert(news[a] == presales[a]);
                    } else {
                        assert(news[a].1 == sale);
                        assert(crate::bid::bids_wf(
                            sale.bids@,
                            self.market.bid_history_length as int,
                        ));
                    }
                }
            }
            assert(s_at(news, k) == sale) by {
                lemma_s_at_index(news, news.len() - 1);
            }
            assert(s_has(news, k)) by {
                lemma_s_at_index(news, news.len() - 1);
            }
            assert(self.market.sales_map().dom() =~= pre.market.sales_map().dom().insert(k));
            assert forall|a: int| 0 <= a < news.len() - 1 implies news[a] == presales[a] by {}
        }
        // Owner index.
        let ghost preowner = self.market.by_owner_id@;
        proof {
            if s_has(preowner, owner_id@) {
                assert(!crate::table::set_has(s_at(preowner, owner_id@)@, k)) by {
                    if crate::table::set_has(s_at(preowner, owner_id@)@, k) {
                        let pa = choose|pa: int|
                            0 <= pa < preowner.len() && #[trigger] preowner[pa].0@ == owner_id@;
                        lemma_s_at_index(preowner, pa);
                        let oldset = preowner[pa].1@;
                        let pb = choose|pb: int|
                            0 <= pb < oldset.len() && #[trigger] oldset[pb]@ == k;
                        assert(s_has(presales, k));
                        assert(false);
                    }
                }
            }
        }
        crate::table::idx_add_elem(&mut self.market.by_owner_id, owner_id.clone(), key_owner);
        proof {
            let o = owner_id@;
            let post = self.market.by_owner_id@;
            assert(crate::owner_index_wf(self.market)) by {
                assert forall|a: int| 0 <= a < news.len() implies s_has(
                    post,
                    (#[trigger] news[a].1).owner_id@,
                ) && crate::table::set_has(s_at(post, news[a].1.owner_id@)@, news[a].0@) by {
                    let o2 = news[a].1.owner_id@;
                    if a < news.len() - 1 {
                        assert(news[a] == presales[a]);
                        assert(s_has(preowner, o2) && crate::table::set_has(
                            s_at(preowner, o2)@,
                            news[a].0@,
                        ));
                        if o2 == o {
                            assert(crate::table::set_view(s_at(post, o)@).contains(news[a].0@));
                        } else {
                            assert(s_at(post, o2) == s_at(preowner, o2));
                        }
                    } else {
                        assert(crate::table::set_view(s_at(post, o)@).contains(k));
                    }
                }
                assert forall|p: int, q: int|
                    0 <= p < post.len() && 0 <= q < post[p].1@.len() implies s_has(
                    news,
                    (#[trigger] post[p].1@[q])@,
                ) && s_at(news, post[p].1@[q]@).owner_id@ == post[p].0@ by {
                    lemma_s_at_index(post, p);
                    let o2 = post[p].0@;
                    let m = post[p].1@[q]@;
                    if o2 == o {
                        assert(crate::table::set_view(s_at(post, o)@).contains(m));
                        if m == k {
                            assert(s_has(news, k));
                            assert(s_at(news, k) == sale);
                        } else {
                            assert(s_has(preowner, o) && crate::table::set_has(
                                s_at(preowner, o)@,
                                m,
                            ));
                            let pa = choose|pa: int|
                                0 <= pa < preowner.len() && #[trigger] preowner[pa].0@ == o;
                            lemma_s_at_index(preowner, pa);
                            let oldset = preowner[pa].1@;
                            let pb = choose|pb: int|
                                0 <= pb < oldset.len() && #[trigger] oldset[pb]@ == m;
                            assert(s_has(presales, m) && s_at(presales, m).owner_id@ == o);
                            assert(m != k);
                            assert(s_map(news) == s_map(presales).insert(k, sale));
                            assert(s_map(news).dom().contains(m));
                            assert(s_has(news, m));
                            assert(s_at(news, m) == s_at(presales, m));
                        }
                    } else {
                        assert(s_at(post, o2) == s_at(preowner, o2));
                        let pa = choose|pa: int|
                            0 <= pa < preowner.len() && #[trigger] preowner[pa].0@ == o2;
                        lemma_s_at_index(preowner, pa);
                        assert(preowner[pa].1 == post[p].1);
                        assert(s_has(presales, m) && s_at(presales, m).owner_id@ == o2);
                        assert(m != k);
                        assert(s_map(news).dom().contains(m));
                        assert(s_has(news, m));
                        assert(s_at(news, m) == s_at(presales, m));
                    }
                }
            }
        }
        // Contract index.
        let ghost precontract = self.market.by_nft_contract_id@;
        proof {
            let c = nft_contract_id@;
            let t = token_id@;
            assert(sale.nft_contract_id@ == c && sale.token_id@ == t);
            if s_has(precontract, c) {
                assert(!crate::table::set_has(s_at(precontract, c)@, t)) by {
                    if crate::table::set_has(s_at(precontract, c)@, t) {
                        let pa = choose|pa: int|
                            0 <= pa < precontract.len() && #[trigger] precontract[pa].0@ == c;
                        lemma_s_at_index(precontract, pa);
                        let oldset = precontract[pa].1@;
                        let pb = choose|pb: int|
                            0 <= pb < oldset.len() && #[trigger] oldset[pb]@ == t;
                        assert(s_has(presales, crate::common::sale_key_view(c, t)));
                        assert(false);
                    }
                }
            }
        }
        crate::table::idx_add_elem(
            &mut self.market.by_nft_contract_id,
            nft_contract_id.clone(),
            token_id.clone(),
        );
        proof {
            let c = nft_contract_id@;
            let t = token_id@;
            let post = self.market.by_nft_contract_id@;
            assert(crate::contract_index_wf(self.market)) by {
                assert forall|a: int| 0 <= a < news.len() implies s_has(
                    post,
                    (#[trigger] news[a].1).nft_contract_id@,
                ) && crate::table::set_has(
                    s_at(post, news[a].1.nft_contract_id@)@,
                    news[a].1.token_id@,
                ) by {
                    let c2 = news[a].1.nft_contract_id@;
                    if a < news.len() - 1 {
                        assert(news[a] == presales[a]);
                        assert(s_has(precontract, c2) && crate::table::set_has(
                            s_at(precontract, c2)@,
                            news[a].1.token_id@,
                        ));
                        if c2 == c {
                            assert(crate::table::set_view(s_at(post, c)@).contains(
                                news[a].1.token_id@,
                            ));
                        } else {
                            assert(s_at(post, c2) == s_at(precontract, c2));
                        }
                    } else {
                        assert(crate::table::set_view(s_at(post, c)@).contains(t));
                    }
                }
                assert forall|p: int, q: int|
                    0 <= p < post.len() && 0 <= q < post[p].1@.len() implies ({
                    let key2 = crate::common::sale_key_view(
                        post[p].0@,
                        (#[trigger] post[p].1@[q])@,
                    );
                    s_has(news, key2) && s_at(news, key2).nft_contract_id@ == post[p].0@ && s_at(
                        news,
                        key2,
                    ).token_id@ == post[p].1@[q]@
                }) by {
                    lemma_s_at_index(post, p);
                    let c2 = post[p].0@;
                    let t2 = post[p].1@[q]@;
                    let key2 = crate::common::sale_key_view(c2, t2);
                    if c2 == c {
                        assert(crate::table::set_view(s_at(post, c)@).contains(t2));
                        if t2 == t {
                            assert(key2 == k);
                            assert(s_has(news, k));
                            assert(s_at(news, k) == sale);
                        } else {
                            assert(crate::table::set_has(s_at(precontract, c)@, t2));
                            let pa = choose|pa: int|
                                0 <= pa < precontract.len() && #[trigger] precontract[pa].0@ == c;
                            lemma_s_at_index(precontract, pa);
                            let oldset = precontract[pa].1@;
                            let pb = choose|pb: int|
                                0 <= pb < oldset.len() && #[trigger] oldset[pb]@ == t2;
                            assert(s_has(presales, key2) && s_at(presales, key2).nft_contract_id@
                                == c && s_at(presales, key2).token_id@ == t2);
                            assert(key2 != k);
                            assert(s_map(news).dom().contains(key2));
                            assert(s_has(news, key2));
                            assert(s_at(news, key2) == s_at(presales, key2));
                        }
                    } else {
                        assert(s_at(post, c2) == s_at(precontract, c2));
                        let pa = choose|pa: int|
                            0 <= pa < precontract.len() && #[trigger] precontract[pa].0@ == c2;
                        lemma_s_at_index(precontract, pa);
                        assert(precontract[pa].1 == post[p].1);
                        assert(s_has(presales, key2) && s_at(presales, key2).nft_contract_id@ == c2
                            && s_at(presales, key2).token_id@ == t2);
                        assert(key2 != k);
                        assert(s_map(news).dom().contains(key2));
                        assert(s_has(news, key2));
                        assert(s_at(news, key2) == s_at(presales, key2));
                    }
                }
            }
        }
        // Token-type index.
        let ghost pretype = self.market.by_nft_token_type@;
        match token_type_for_idx {
            Some(tt) => {
                proof {
                    let ty = tt@;
                    assert(sale.token_type is Some && sale.token_type->0@ == ty);
                    if s_has(pretype, ty) {
                        assert(!crate::table::set_has(s_at(pretype, ty)@, k)) by {
                            if crate::table::set_has(s_at(pretype, ty)@, k) {
                                let pa = choose|pa: int|
                                    0 <= pa < pretype.len() && #[trigger] pretype[pa].0@ == ty;
                                lemma_s_at_index(pretype, pa);
                                let oldset = pretype[pa].1@;
                                let pb = choose|pb: int|
                                    0 <= pb < oldset.len() && #[trigger] oldset[pb]@ == k;
                                assert(s_has(presales, k));
                                assert(false);
                            }
                        }
                    }
                }
                let ghost ty = tt@;
                crate::table::idx_add_elem(&mut self.market.by_nft_token_type, tt, key_type);
                proof {
                    let post = self.market.by_nft_token_type@;
                    assert(crate::token_type_index_wf(self.market)) by {
                        assert forall|a: int|
                            0 <= a < news.len() && (#[trigger] news[a].1).token_type
                                is Some implies s_has(post, news[a].1.token_type->0@)
                            && crate::table::set_has(
                            s_at(post, news[a].1.token_type->0@)@,
                            news[a].0@,
                        ) by {
                            let ty2 = news[a].1.token_type->0@;
                            if a < news.len() - 1 {
                                assert(news[a] == presales[a]);
                                assert(s_has(pretype, ty2) && crate::table::set_has(
                                    s_at(pretype, ty2)@,
                                    news[a].0@,
                                ));
                                if ty2 == ty {
                                    assert(crate::table::set_view(s_at(post, ty)@).contains(
                                        news[a].0@,
                                    ));
                                } else {
                                    assert(s_at(post, ty2) == s_at(pretype, ty2));
                                }
                            } else {
                                assert(crate::table::set_view(s_at(post, ty)@).contains(k));
                            }
                        }
                        assert forall|p: int, q: int|
                            0 <= p < post.len() && 0 <= q < post[p].1@.len() implies s_has(
                            news,
                            (#[trigger] post[p].1@[q])@,
                        ) && (s_at(news, post[p].1@[q]@).token_type matches Some(tt2) && tt2@
                            == post[p].0@) by {
                            lemma_s_at_index(post, p);
                            let ty2 = post[p].0@;
                            let m = post[p].1@[q]@;
                            if ty2 == ty {
                                assert(crate::table::set_view(s_at(post, ty)@).contains(m));
                                if m == k {
                                    assert(s_has(news, k));
                                    assert(s_at(news, k) == sale);
                                } else {
                                    assert(crate::table::set_has(s_at(pretype, ty)@, m));
                                    let pa = choose|pa: int|
                                        0 <= pa < pretype.len() && #[trigger] pretype[pa].0@ == ty;
                                    lemma_s_at_index(pretype, pa);
                                    let oldset = pretype[pa].1@;
                                    let pb = choose|pb: int|
                                        0 <= pb < oldset.len() && #[trigger] oldset[pb]@ == m;
                                    assert(s_has(presales, m));
                                    assert(m != k);
                                    assert(s_map(news).dom().contains(m));
                                    assert(s_has(news, m));
                                    assert(s_at(news, m) == s_at(presales, m));
                                }
                            } else {
                                assert(s_at(post, ty2) == s_at(pretype, ty2));
                                let pa = choose|pa: int|
                                    0 <= pa < pretype.len() && #[trigger] pretype[pa].0@ == ty2;
                                lemma_s_at_index(pretype, pa);
                                assert(pretype[pa].1 == post[p].1);
                                assert(s_has(presales, m));
                                assert(m != k);
                                assert(s_map(news).dom().contains(m));
                                assert(s_has(news, m));
                                assert(s_at(news, m) == s_at(presales, m));
                            }
                        }
                    }
                }
            },
            None => {
                proof {
                    let post = self.market.by_nft_token_type@;
                    assert(post == pretype);
                    assert(crate::token_type_index_wf(self.market)) by {
                        assert forall|a: int|
                            0 <= a < news.len() && (#[trigger] news[a].1).token_type
                                is Some implies s_has(post, news[a].1.token_type->0@)
                            && crate::table::set_has(
                            s_at(post, news[a].1.token_type->0@)@,
                            news[a].0@,
                        ) by {
                            if a < news.len() - 1 {
                                assert(news[a] == presales[a]);
                            } else {
                                assert(news[a].1 == sale);
                                assert(sale.token_type is None);
                            }
                        }
                        assert forall|p: int, q: int|
                            0 <= p < post.len() && 0 <= q < post[p].1@.len() implies s_has(
                            news,
                            (#[trigger] post[p].1@[q])@,
                        ) && (s_at(news, post[p].1@[q]@).token_type matches Some(tt2) && tt2@
                            == post[p].0@) by {
                            let m = post[p].1@[q]@;
                            assert(s_has(presales, m));
                            assert(m != k);
                            assert(s_map(news).dom().contains(m));
                            assert(s_has(news, m));
                            assert(s_at(news, m) == s_at(presales, m));
                        }
                    }
                }
            },
        }
        Ok(json)
    }

    /// Accepts the latest (and, by the ledger's ordering, best) bid in the
    /// given currency: the bid leaves the ledger and settlement starts with
    /// its price, bidder and fee shares. Owner-only; the sale must be in its
    /// window and the bid still inside its own validity window.
    pub fn accept_offer(
        &mut self,
        nft_contract_id: AccountId,
        token_id: TokenId,
        ft_token_id: AccountId,
        predecessor: AccountId,
        now: u64,
        market_account: &AccountId,
    ) -> (r: Result<(SettlementRequest, Sale), MarketError>)
        requires
            crate::market_wf(*old(self)),
        ensures
            crate::market_wf(*final(self)),
            crate::inner::same_but_sales(*final(self), *old(self)),
            ({
                let k = crate::common::sale_key_view(nft_contract_id@, token_id@);
                let sm = old(self).market.sales_map();
                let has_sale = sm.dom().contains(k);
                let is_owner = has_sale && predecessor@ == sm[k].owner_id@;
                let in_lim = is_owner && spec_sale_in_limits(sm[k], now);
                let has_bids = in_lim && s_has(sm[k].bids@, ft_token_id@);
                match r {
                    Ok((request, sale_ctx)) => {
                        &&& has_bids
                        &&& ({
                            let bucket = s_at(sm[k].bids@, ft_token_id@)@;
                            let bid = bucket.last();
                            &&& crate::bid::spec_bid_in_limits(bid, now)
                            &&& final(self).market.sales_map() == sm.remove(k)
                            &&& request.receiver_id == bid.owner_id
                            &&& request.token_id == token_id
                            &&& request.approval_id == sm[k].approval_id
                            &&& request.price == bid.price
                            &&& request.max_len_payout == 10
                            &&& request.nft_contract_id == nft_contract_id
                            &&& request.ft_token_id == ft_token_id
                            &&& with_fee_entry(
                                request.fees.buyer@,
                                bid.origins@,
                                market_account@,
                                crate::fee::PROTOCOL_FEE as u32,
                            )
                            &&& with_fee_entry(
                                request.fees.seller@,
                                sm[k].origins@,
                                market_account@,
                                crate::fee::PROTOCOL_FEE as u32,
                            )
                            &&& crate::inner::same_sale_except_bids(sale_ctx, sm[k])
                            &&& if bucket.len() == 1 {
                                !s_has(sale_ctx.bids@, ft_token_id@)
                            } else {
                                s_has(sale_ctx.bids@, ft_token_id@) && s_at(
                                    sale_ctx.bids@,
                                    ft_token_id@,
                                )@ == bucket.drop_last()
                            }
                            &&& forall|ft2: Seq<char>|
                                ft2 != ft_token_id@ ==> s_has(sale_ctx.bids@, ft2) == s_has(
                                    sm[k].bids@,
                                    ft2,
                                )
                            &&& forall|ft2: Seq<char>|
                                ft2 != ft_token_id@ && s_has(sm[k].bids@, ft2) ==> s_at(
                                    sale_ctx.bids@,
                                    ft2,
                                ) == s_at(sm[k].bids@, ft2)
                        })
                    },
                    Err(e) => {
                        &&& *final(self) == *old(self)
                        &&& (e == MarketError::NoSale <==> !has_sale)
                        &&& (e == MarketError::NotOwner <==> has_sale && predecessor@
                            != sm[k].owner_id@)
                        &&& (e == MarketError::SaleNotInProgress <==> is_owner
                            && !spec_sale_in_limits(sm[k], now))
                        &&& (e == MarketError::NoBids <==> in_lim && !s_has(
                            sm[k].bids@,
                            ft_token_id@,
                        ))
                        &&& (e == MarketError::BidOutOfLimits <==> has_bids
                            && !crate::bid::spec_bid_in_limits(
                            s_at(sm[k].bids@, ft_token_id@)@.last(),
                            now,
                        ))
                        &&& (e == MarketError::NoSale || e == MarketError::NotOwner || e
                            == MarketError::SaleNotInProgress || e == MarketError::NoBids || e
                            == MarketError::BidOutOfLimits)
                    },
                }
            }),
    {
        let ghost pre = *self;
        let key = crate::common::compose_sale_key(&nft_contract_id, &token_id);
        let i = match s_find(&self.market.sales, &key) {
            Some(i) => i,
            None => {
                return Err(MarketError::NoSale);
            },
        };
        proof {
            lemma_s_at_index(self.market.sales@, i as int);
        }
        if !(predecessor == self.market.sales[i].1.owner_id) {
            return Err(MarketError::NotOwner);
        }
        if !self.market.sales[i].1.in_limits(now) {
            return Err(MarketError::SaleNotInProgress);
        }
        let j = match s_find(&self.market.sales[i].1.bids, &ft_token_id) {
            Some(j) => j,
            None => {
                return Err(MarketError::NoBids);
            },
        };
        proof {
            lemma_s_at_index(self.market.sales@[i as int].1.bids@, j as int);
        }
        let in_bid_limits = {
            let bucket_ref = &self.market.sales[i].1.bids[j].1;
            bucket_ref[bucket_ref.len() - 1].in_limits(now)
        };
        if !in_bid_limits {
            return Err(MarketError::BidOutOfLimits);
        }
        let ghost k = key@;
        let ghost presales = self.market.sales@;
        let ghost sale0 = presales[i as int].1;
        let ghost bucket0 = sale0.bids@[j as int].1@;
        proof {
            lemma_s_swap_remove(presales, i as int);
        }
        let (kstr, mut sale) = self.market.sales.swap_remove(i);
        proof {
            lemma_s_swap_remove(sale.bids@, j as int);
        }
        let (ftstr, mut bucket) = sale.bids.swap_remove(j);
        let bid = match bucket.pop() {
            Some(b) => b,
            None => {
                proof {
                    assert(false);
                }
                return Err(MarketError::NoBids);
            },
        };
        if bucket.len() > 0 {
            proof {
                crate::table::lemma_s_push(sale.bids@, (ftstr, bucket));
            }
            sale.bids.push((ftstr, bucket));
        }
        proof {
            crate::table::lemma_s_push(self.market.sales@, (kstr, sale));
        }
        self.market.sales.push((kstr, sale));
        proof {
            let news = self.market.sales@;
            assert forall|x: int| #![trigger news[x]] 0 <= x < news.len() implies ((news[x].0@ == k
                && news[x].1 == sale) || (exists|y: int|
                0 <= y < presales.len() && news[x] == #[trigger] presales[y])) by {
                if x < news.len() - 1 {
                    let n = presales.len() as int;
                    let sa = if x == i {
                        n - 1
                    } else {
                        x
                    };
                    assert(news[x] == presales[sa]);
                }
            }
            let cap = self.market.bid_history_length as int;
            assert(bucket@ =~= bucket0.drop_last());
            assert(sale_wf(sale, cap)) by {
                let prebids = sale0.bids@;
                assert(skeys_distinct(sale.bids@));
                assert forall|x: int|
                    0 <= x < sale.bids@.len() implies crate::bid::bucket_wf(
                    (#[trigger] sale.bids@[x]).1@,
                    cap,
                ) by {
                    if x < sale.bids@.len() - 1 || bucket0.len() == 1 {
                        let n = prebids.len() as int;
                        let sa = if x == j as int {
                            n - 1
                        } else {
                            x
                        };
                        assert(sale.bids@[x] == prebids[sa]);
                    } else {
                        assert(sale.bids@[x].1@ == bucket0.drop_last());
                        crate::bid::lemma_bucket_remove(bucket0, bucket0.len() - 1);
                        assert(bucket0.remove(bucket0.len() - 1) =~= bucket0.drop_last());
                    }
                }
            }
            assert(self.market.sales_map() == pre.market.sales_map().insert(k, sale));
            crate::inner::lemma_wf_after_sale_update(pre, *self, k, sale);
            assert(s_at(news, k) == sale) by {
                lemma_s_at_index(news, news.len() - 1);
            }
            let bids1 = sale.bids@;
            assert forall|ft2: Seq<char>| ft2 != ft_token_id@ implies s_has(bids1, ft2) == s_has(
                sale0.bids@,
                ft2,
            ) by {
                assert(s_map(bids1).dom().contains(ft2) == s_map(sale0.bids@).dom().contains(ft2));
            }
            assert forall|ft2: Seq<char>| ft2 != ft_token_id@ && s_has(sale0.bids@, ft2) implies s_at(
                bids1,
                ft2,
            ) == s_at(sale0.bids@, ft2) by {
                assert(s_map(bids1)[ft2] == s_map(sale0.bids@)[ft2]);
            }
            if bucket0.len() == 1 {
                assert(!s_has(bids1, ft_token_id@)) by {
                    assert(!s_map(bids1).dom().contains(ft_token_id@));
                }
            } else {
                assert(s_has(bids1, ft_token_id@) && s_at(bids1, ft_token_id@)@
                    == bucket0.drop_last()) by {
                    lemma_s_at_index(bids1, bids1.len() - 1);
                }
            }
        }
        match self.process_purchase(
            nft_contract_id,
            token_id,
            ft_token_id,
            bid.price,
            bid.owner_id,
            bid.origins,
            market_account,
        ) {
            Ok((request, sale_ctx)) => {
                proof {
                    assert(self.market.sales_map() =~= pre.market.sales_map().remove(k));
                }
                Ok((request, sale_ctx))
            },
            Err(_) => {
                proof {
                    assert(false);
                }
                Err(MarketError::NoSale)
            },
        }
    }

    /// Removes the sale. While the sale is inside its availability window
    /// only its owner may do so; afterwards anyone may. Every outstanding
    /// bid across all currencies is refunded.
    pub fn remove_sale(
        &mut self,
        nft_contract_id: AccountId,
        token_id: TokenId,
        predecessor: AccountId,
        deposit: u128,
        now: u64,
    ) -> (r: Result<Vec<FundTransfer>, MarketError>)
        requires
            crate::market_wf(*old(self)),
        ensures
            crate::market_wf(*final(self)),
            crate::inner::same_but_sales(*final(self), *old(self)),
            ({
                let k = crate::common::sale_key_view(nft_contract_id@, token_id@);
                let sm = old(self).market.sales_map();
                match r {
                    Ok(transfers) => {
                        &&& deposit == 1
                        &&& sm.dom().contains(k)
                        &&& (spec_sale_in_limits(sm[k], now) ==> predecessor@ == sm[k].owner_id@)
                        &&& final(self).market.sales_map() == sm.remove(k)
                        &&& transfers@.map_values(|t: FundTransfer| crate::bid::transfer_view(t))
                            == crate::bid::ledger_refund_views(sm[k].bids@)
                    },
                    Err(e) => {
                        &&& *final(self) == *old(self)
                        &&& (e == MarketError::NotOneYocto <==> deposit != 1)
                        &&& (e == MarketError::NoSale <==> deposit == 1 && !sm.dom().contains(k))
                        &&& (e == MarketError::NotOwner <==> deposit == 1 && sm.dom().contains(k)
                            && spec_sale_in_limits(sm[k], now) && predecessor@ != sm[k].owner_id@)
                        &&& (e == MarketError::NotOneYocto || e == MarketError::NoSale || e
                            == MarketError::NotOwner)
                    },
                }
            }),
    {
        if deposit != 1 {
            return Err(MarketError::NotOneYocto);
        }
        let i = match s_find(&self.market.sales, &crate::common::compose_sale_key(&nft_contract_id, &token_id)) {
            Some(i) => i,
            None => {
                return Err(MarketError::NoSale);
            },
        };
        proof {
            lemma_s_at_index(self.market.sales@, i as int);
        }
        if self.market.sales[i].1.in_limits(now) {
            if !(predecessor == self.market.sales[i].1.owner_id) {
                return Err(MarketError::NotOwner);
            }
        }
        let sale = match self.internal_remove_sale(nft_contract_id, token_id) {
            Ok(sale) => sale,
            Err(_) => {
                proof {
                    assert(false);
                }
                return Err(MarketError::NoSale);
            },
        };
        let transfers = crate::Market::refund_all_bids(&sale.bids);
        Ok(transfers)
    }

    /// Settlement resolver for direct token purchases (the lazy-mint path):
    /// like `resolve_purchase` but with no listing record behind it, so an
    /// invalid payout refunds the buyer's attached deposit and a valid one
    /// disburses the split in the native currency.
    pub fn resolve_token_buy(
        &self,
        buyer_id: AccountId,
        deposit: u128,
        price: u128,
        transfer_result: Option<Payout>,
    ) -> (out: (u128, Vec<FundTransfer>))
        ensures
            ({
                let valid = transfer_result matches Some(p) && payout_sum(p.payout@)
                    <= price && price - payout_sum(p.payout@) <= 1;
                &&& out.0 == price
                &&& if valid {
                    out.1@.map_values(|t: FundTransfer| crate::bid::transfer_view(t))
                        == payout_transfer_views("near"@, transfer_result->0.payout@)
                } else {
                    out.1@.len() == 1 && crate::bid::transfer_view(out.1@[0]) == (
                        "near"@,
                        buyer_id@,
                        deposit,
                    )
                }
            }),
    {
        let valid: bool = match &transfer_result {
            Some(p) => {
                let lp = p.payout.len();
                let mut remainder: u128 = price;
                let mut under = false;
                let mut t: usize = 0;
                proof {
                    assert(p.payout@.take(0) =~= Seq::<(AccountId, u128)>::empty());
                }
                while t < lp && !under
                    invariant
                        0 <= t <= lp,
                        lp == p.payout@.len(),
                        !under ==> remainder == price - payout_sum(p.payout@.take(t as int)),
                        under ==> payout_sum(p.payout@) > price,
                    decreases lp - t, (if under { 0int } else { 1int }),
                {
                    let v = p.payout[t].1;
                    match remainder.checked_sub(v) {
                        Some(r2) => {
                            proof {
                                lemma_payout_sum_take(p.payout@, t as int);
                            }
                            remainder = r2;
                            t = t + 1;
                        },
                        None => {
                            proof {
                                lemma_payout_sum_take(p.payout@, t as int);
                                lemma_payout_sum_prefix(p.payout@, t + 1);
                            }
                            under = true;
                        },
                    }
                }
                proof {
                    if !under {
                        assert(p.payout@.take(lp as int) =~= p.payout@);
                    }
                }
                !under && remainder <= 1
            },
            None => false,
        };
        if valid {
            let p = match transfer_result {
                Some(p) => p,
                None => {
                    proof {
                        assert(false);
                    }
                    return (price, Vec::new());
                },
            };
            let near: String = "near".to_owned();
            let mut transfers: Vec<FundTransfer> = Vec::new();
            let lp = p.payout.len();
            let mut t: usize = 0;
            proof {
                assert(transfers@.map_values(|t: FundTransfer| crate::bid::transfer_view(t))
                    =~= payout_transfer_views("near"@, p.payout@.take(0)));
            }
            while t < lp
                invariant
                    0 <= t <= lp,
                    lp == p.payout@.len(),
                    near@ == "near"@,
                    transfers@.map_values(|t: FundTransfer| crate::bid::transfer_view(t))
                        == payout_transfer_views("near"@, p.payout@.take(t as int)),
                decreases lp - t,
            {
                let amount = p.payout[t].1;
                let tr = FundTransfer {
                    ft_token_id: near.clone(),
                    receiver_id: p.payout[t].0.clone(),
                    amount,
                };
                let ghost tr0 = tr;
                let ghost pret = transfers@;
                transfers.push(tr);
                proof {
                    let f = |t: FundTransfer| crate::bid::transfer_view(t);
                    assert(transfers@ == pret.push(tr0));
                    assert(transfers@.map_values(f) =~= pret.map_values(f).push(f(tr0)));
                    assert(payout_transfer_views("near"@, p.payout@.take(t + 1))
                        =~= payout_transfer_views("near"@, p.payout@.take(t as int)).push(
                        ("near"@, p.payout@[t as int].0@, p.payout@[t as int].1),
                    ));
                }
                t = t + 1;
            }
            proof {
                assert(p.payout@.take(lp as int) =~= p.payout@);
            }
            (price, transfers)
        } else {
            let near: String = "near".to_owned();
            let mut transfers: Vec<FundTransfer> = Vec::new();
            transfers.push(FundTransfer { ft_token_id: near, receiver_id: buyer_id, amount: deposit });
            (price, transfers)
        }
    }
}

} // verus!
