//! Core of an NFT marketplace: fixed-price sales with a bid ledger, timed
//! English auctions with optional buyout, fee arithmetic over weighted
//! beneficiary shares, and a two-phase settlement protocol that tolerates a
//! failing remote token transfer.
//!
//! The surrounding blockchain runtime (current time, caller identity, attached
//! deposit, asynchronous currency transfers, persistent storage) is kept out of
//! the library: every entry point takes the ambient values it needs as plain
//! arguments and returns the transfer instructions it decided on, so the whole
//! decision logic is verified.
pub mod auction;
pub mod auction_views;
pub mod bid;
pub mod common;
pub mod fee;
pub mod hack;
pub mod inner;
pub mod market_core;
pub mod sale;
pub mod sale_views;
pub mod table;

use vstd::prelude::*;

use crate::auction::{auction_wf, Auction};
use crate::common::{
    sale_key_view, AccountId, ContractAndTokenId, FungibleTokenId, MarketError, TokenId,
};
use crate::sale::{sale_wf, Sale, BID_HISTORY_LENGTH_DEFAULT};
use crate::table::{
    elems_distinct, s_at, s_find, s_has, s_map, set_has, skeys_distinct, u_map, ukeys_distinct,
};

verus! {

/// Price of one byte of contract storage, in the smallest currency unit.
pub const STORAGE_PRICE_PER_BYTE: u128 = 10_000_000_000_000_000_000;

/// Storage rent a seller must have deposited for each open listing.
pub const STORAGE_PER_SALE: u128 = 1000 * STORAGE_PRICE_PER_BYTE;

/// Labels of the persistent collections in the storage backend the runtime
/// shell uses.
pub enum StorageKey {
    Sales,
    ByOwnerId,
    ByOwnerIdInner { account_id_hash: [u8; 32] },
    ByNFTContractId,
    ByNFTContractIdInner { account_id_hash: [u8; 32] },
    ByNFTTokenType,
    ByNFTTokenTypeInner { token_type_hash: [u8; 32] },
    FTTokenIds,
    StorageDeposits,
    OriginFees,
    Auctions,
    AuctionId,
}

/// The persisted marketplace state: the listing tables, the discovery
/// indices, the supported currencies, and the prepaid-storage ledger.
pub struct MarketSales {
    pub owner_id: AccountId,
    /// Listing key -> sale.
    pub sales: Vec<(ContractAndTokenId, Sale)>,
    /// Owner account -> set of listing keys.
    pub by_owner_id: Vec<(AccountId, Vec<ContractAndTokenId>)>,
    /// NFT contract account -> set of token ids.
    pub by_nft_contract_id: Vec<(AccountId, Vec<TokenId>)>,
    /// Token type -> set of listing keys.
    pub by_nft_token_type: Vec<(String, Vec<ContractAndTokenId>)>,
    /// Supported currencies; always contains `"near"`.
    pub ft_token_ids: Vec<FungibleTokenId>,
    /// Account -> prepaid storage balance.
    pub storage_deposits: Vec<(AccountId, u128)>,
    /// Cap on the number of bids kept per currency of a sale.
    pub bid_history_length: u8,
    /// Auction id -> auction.
    pub auctions: Vec<(u128, Auction)>,
    pub next_auction_id: u128,
}

/// The marketplace contract state.
pub struct Market {
    pub non_fungible_token_account_ids: Vec<AccountId>,
    pub market: MarketSales,
}

impl MarketSales {
    /// The sales table as a map: listing key -> sale.
    pub open spec fn sales_map(self) -> Map<Seq<char>, Sale> {
        s_map(self.sales@)
    }

    /// The auctions table as a map: auction id -> auction.
    pub open spec fn auctions_map(self) -> Map<u128, Auction> {
        u_map(self.auctions@)
    }

    /// The prepaid-storage ledger as a map: account -> balance.
    pub open spec fn deposits_map(self) -> Map<Seq<char>, u128> {
        s_map(self.storage_deposits@)
    }

    /// A currency is supported.
    pub open spec fn supports_ft(self, ft: Seq<char>) -> bool {
        set_has(self.ft_token_ids@, ft)
    }
}

/// The sales table is well formed: distinct keys, each sale well formed, and
/// each entry stored under the key composed from its own token reference.
pub open spec fn sales_wf(ms: MarketSales) -> bool {
    &&& skeys_distinct(ms.sales@)
    &&& forall|i: int| 0 <= i < ms.sales@.len() ==> sale_wf(
        #[trigger] ms.sales@[i].1,
        ms.bid_history_length as int,
    )
    &&& forall|i: int| 0 <= i < ms.sales@.len() ==> (#[trigger] ms.sales@[i].0)@ == sale_key_view(
        ms.sales@[i].1.nft_contract_id@,
        ms.sales@[i].1.token_id@,
    )
}

/// The by-owner index matches the sales table in both directions.
pub open spec fn owner_index_wf(ms: MarketSales) -> bool {
    &&& skeys_distinct(ms.by_owner_id@)
    &&& forall|i: int| 0 <= i < ms.by_owner_id@.len() ==> elems_distinct(
        #[trigger] ms.by_owner_id@[i].1@,
    ) && ms.by_owner_id@[i].1@.len() > 0
    &&& forall|i: int| 0 <= i < ms.sales@.len() ==> s_has(
        ms.by_owner_id@,
        (#[trigger] ms.sales@[i].1).owner_id@,
    ) && set_has(s_at(ms.by_owner_id@, ms.sales@[i].1.owner_id@)@, ms.sales@[i].0@)
    &&& forall|i: int, j: int|
        0 <= i < ms.by_owner_id@.len() && 0 <= j < ms.by_owner_id@[i].1@.len() ==> s_has(
            ms.sales@,
            (#[trigger] ms.by_owner_id@[i].1@[j])@,
        ) && s_at(ms.sales@, ms.by_owner_id@[i].1@[j]@).owner_id@ == ms.by_owner_id@[i].0@
}

/// The by-contract index matches the sales table in both directions.
pub open spec fn contract_index_wf(ms: MarketSales) -> bool {
    &&& skeys_distinct(ms.by_nft_contract_id@)
    &&& forall|i: int| 0 <= i < ms.by_nft_contract_id@.len() ==> elems_distinct(
        #[trigger] ms.by_nft_contract_id@[i].1@,
    ) && ms.by_nft_contract_id@[i].1@.len() > 0
    &&& forall|i: int| 0 <= i < ms.sales@.len() ==> s_has(
        ms.by_nft_contract_id@,
        (#[trigger] ms.sales@[i].1).nft_contract_id@,
    ) && set_has(
        s_at(ms.by_nft_contract_id@, ms.sales@[i].1.nft_contract_id@)@,
        ms.sales@[i].1.token_id@,
    )
    &&& forall|i: int, j: int|
        0 <= i < ms.by_nft_contract_id@.len() && 0 <= j < ms.by_nft_contract_id@[i].1@.len()
            ==> ({
            let key = sale_key_view(
                ms.by_nft_contract_id@[i].0@,
                (#[trigger] ms.by_nft_contract_id@[i].1@[j])@,
            );
            s_has(ms.sales@, key) && s_at(ms.sales@, key).nft_contract_id@
                == ms.by_nft_contract_id@[i].0@ && s_at(ms.sales@, key).token_id@
                == ms.by_nft_contract_id@[i].1@[j]@
        })
}

/// The by-token-type index matches the sales table in both directions.
pub open spec fn token_type_index_wf(ms: MarketSales) -> bool {
    &&& skeys_distinct(ms.by_nft_token_type@)
    &&& forall|i: int| 0 <= i < ms.by_nft_token_type@.len() ==> elems_distinct(
        #[trigger] ms.by_nft_token_type@[i].1@,
    ) && ms.by_nft_token_type@[i].1@.len() > 0
    &&& forall|i: int|
        0 <= i < ms.sales@.len() && (#[trigger] ms.sales@[i].1).token_type is Some ==> s_has(
            ms.by_nft_token_type@,
            ms.sales@[i].1.token_type->0@,
        ) && set_has(s_at(ms.by_nft_token_type@, ms.sales@[i].1.token_type->0@)@, ms.sales@[i].0@)
    &&& forall|i: int, j: int|
        0 <= i < ms.by_nft_token_type@.len() && 0 <= j < ms.by_nft_token_type@[i].1@.len()
            ==> s_has(ms.sales@, (#[trigger] ms.by_nft_token_type@[i].1@[j])@) && (s_at(
            ms.sales@,
            ms.by_nft_token_type@[i].1@[j]@,
        ).token_type matches Some(tt) && tt@ == ms.by_nft_token_type@[i].0@)
}

/// The auctions table is well formed and all ids are below the next free id.
pub open spec fn auctions_wf(ms: MarketSales) -> bool {
    &&& ukeys_distinct(ms.auctions@)
    &&& forall|i: int| 0 <= i < ms.auctions@.len() ==> auction_wf(#[trigger] ms.auctions@[i].1)
    &&& forall|i: int| 0 <= i < ms.auctions@.len() ==> (#[trigger] ms.auctions@[i].0)
        < ms.next_auction_id
}

/// Global well-formedness of the marketplace state. Established by `new`,
/// preserved by every mutating call.
pub open spec fn market_wf(m: Market) -> bool {
    &&& m.market.bid_history_length >= 1
    &&& sales_wf(m.market)
    &&& owner_index_wf(m.market)
    &&& contract_index_wf(m.market)
    &&& token_type_index_wf(m.market)
    &&& auctions_wf(m.market)
    &&& elems_distinct(m.market.ft_token_ids@)
    &&& skeys_distinct(m.market.storage_deposits@)
}

impl Market {
    /// A fresh marketplace: no listings, no deposits, the native currency as
    /// the only supported one, and the default bid-history cap.
    pub fn new(nft_ids: Vec<AccountId>, owner_id: AccountId) -> (m: Market)
        ensures
            market_wf(m),
            m.non_fungible_token_account_ids@ == nft_ids@,
            m.market.owner_id == owner_id,
            m.market.sales@.len() == 0,
            m.market.by_owner_id@.len() == 0,
            m.market.by_nft_contract_id@.len() == 0,
            m.market.by_nft_token_type@.len() == 0,
            m.market.ft_token_ids@.len() == 1 && m.market.ft_token_ids@[0]@ == "near"@,
            m.market.storage_deposits@.len() == 0,
            m.market.bid_history_length == BID_HISTORY_LENGTH_DEFAULT,
            m.market.auctions@.len() == 0,
            m.market.next_auction_id == 0,
    {
        let mut tokens: Vec<FungibleTokenId> = Vec::new();
        tokens.push("near".to_owned());
        let market = MarketSales {
            owner_id,
            sales: Vec::new(),
            by_owner_id: Vec::new(),
            by_nft_contract_id: Vec::new(),
            by_nft_token_type: Vec::new(),
            ft_token_ids: tokens,
            storage_deposits: Vec::new(),
            bid_history_length: BID_HISTORY_LENGTH_DEFAULT,
            auctions: Vec::new(),
            next_auction_id: 0,
        };
        Market { non_fungible_token_account_ids: nft_ids, market }
    }

    /// The storage rent required per listing slot.
    pub fn storage_amount(&self) -> (r: u128)
        ensures
            r == STORAGE_PER_SALE,
    {
        STORAGE_PER_SALE
    }

    /// Credits `deposit` to the prepaid-storage balance of `account_id`, or
    /// of the caller when no account is named.
    ///
    /// Rejects a deposit under the per-sale rent, and an addition that would
    /// not fit the balance type; nothing changes on a rejection.
    pub fn storage_deposit(
        &mut self,
        account_id: Option<AccountId>,
        predecessor: AccountId,
        deposit: u128,
    ) -> (r: Result<(), MarketError>)
        requires
            market_wf(*old(self)),
        ensures
            market_wf(*final(self)),
            ({
                let target = match account_id {
                    Some(a) => a@,
                    None => predecessor@,
                };
                let prior = if old(self).market.deposits_map().dom().contains(target) {
                    old(self).market.deposits_map()[target] as int
                } else {
                    0
                };
                match r {
                    Ok(()) => deposit >= STORAGE_PER_SALE && prior + deposit <= u128::MAX as int
                        && final(self).market == MarketSales {
                        storage_deposits: final(self).market.storage_deposits,
                        ..old(self).market
                    } && final(self).market.deposits_map() == old(
                        self,
                    ).market.deposits_map().insert(target, (prior + deposit) as u128),
                    Err(e) => *final(self) == *old(self) && (
                    (e == MarketError::DepositBelowStorageMinimum && deposit < STORAGE_PER_SALE)
                        || (e == MarketError::Overflow && deposit >= STORAGE_PER_SALE && prior
                        + deposit > u128::MAX as int)),
                }
            }),
    {
        let storage_account_id = match account_id {
            Some(a) => a,
            None => predecessor,
        };
        if deposit < STORAGE_PER_SALE {
            return Err(MarketError::DepositBelowStorageMinimum);
        }
        match s_find(&self.market.storage_deposits, &storage_account_id) {
            Some(i) => {
                let prior = self.market.storage_deposits[i].1;
                proof {
                    crate::table::lemma_s_at_index(self.market.storage_deposits@, i as int);
                }
                match prior.checked_add(deposit) {
                    Some(balance) => {
                        let ghost pre = self.market.storage_deposits@;
                        let key = self.market.storage_deposits[i].0.clone();
                        self.market.storage_deposits[i] = (key, balance);
                        proof {
                            crate::table::lemma_s_replace(
                                pre,
                                i as int,
                                (key, balance),
                            );
                        }
                        Ok(())
                    },
                    None => Err(MarketError::Overflow),
                }
            },
            None => {
                let ghost pre = self.market.storage_deposits@;
                self.market.storage_deposits.push((storage_account_id, deposit));
                proof {
                    crate::table::lemma_s_push(pre, (storage_account_id, deposit));
                }
                Ok(())
            },
        }
    }

    /// Withdraws the prepaid storage balance not covering open listings: the
    /// caller keeps exactly the rent of their open sales and the rest comes
    /// back as a transfer instruction. One yocto unit must be attached.
    pub fn storage_withdraw(&mut self, predecessor: AccountId, deposit: u128) -> (r: Result<
        Option<common::FundTransfer>,
        MarketError,
    >)
        requires
            market_wf(*old(self)),
        ensures
            market_wf(*final(self)),
            ({
                let p = predecessor@;
                let prior = if old(self).market.deposits_map().dom().contains(p) {
                    old(self).market.deposits_map()[p] as int
                } else {
                    0
                };
                let len = if s_has(old(self).market.by_owner_id@, p) {
                    s_at(old(self).market.by_owner_id@, p)@.len() as int
                } else {
                    0
                };
                let diff = len * (STORAGE_PER_SALE as int);
                match r {
                    Ok(tr) => {
                        &&& deposit == 1
                        &&& diff <= u128::MAX as int
                        &&& prior >= diff
                        &&& final(self).market == MarketSales {
                            storage_deposits: final(self).market.storage_deposits,
                            ..old(self).market
                        }
                        &&& final(self).market.deposits_map() == if diff > 0 {
                            old(self).market.deposits_map().insert(p, diff as u128)
                        } else {
                            old(self).market.deposits_map().remove(p)
                        }
                        &&& match tr {
                            Some(t) => prior - diff > 0 && t.ft_token_id@ == "near"@
                                && t.receiver_id@ == p && t.amount == prior - diff,
                            None => prior == diff,
                        }
                    },
                    Err(e) => {
                        &&& *final(self) == *old(self)
                        &&& (e == MarketError::NotOneYocto <==> deposit != 1)
                        &&& (e == MarketError::Overflow <==> deposit == 1 && (diff > u128::MAX as int
                            || (diff <= u128::MAX as int && prior < diff)))
                        &&& (e == MarketError::NotOneYocto || e == MarketError::Overflow)
                    },
                }
            }),
    {
        if deposit != 1 {
            return Err(MarketError::NotOneYocto);
        }
        let ghost pre = *self;
        let d_opt = s_find(&self.market.storage_deposits, &predecessor);
        let amount: u128 = match d_opt {
            Some(d) => {
                proof {
                    crate::table::lemma_s_at_index(self.market.storage_deposits@, d as int);
                }
                self.market.storage_deposits[d].1
            },
            None => 0,
        };
        let len: usize = match s_find(&self.market.by_owner_id, &predecessor) {
            Some(oi) => {
                proof {
                    crate::table::lemma_s_at_index(self.market.by_owner_id@, oi as int);
                }
                self.market.by_owner_id[oi].1.len()
            },
            None => 0,
        };
        let diff: u128 = match (len as u128).checked_mul(STORAGE_PER_SALE) {
            Some(v) => v,
            None => {
                return Err(MarketError::Overflow);
            },
        };
        let remaining: u128 = match amount.checked_sub(diff) {
            Some(v) => v,
            None => {
                return Err(MarketError::Overflow);
            },
        };
        match d_opt {
            Some(d) => {
                let ghost predeps = self.market.storage_deposits@;
                if diff > 0 {
                    let key = self.market.storage_deposits[d].0.clone();
                    self.market.storage_deposits[d] = (key, diff);
                    proof {
                        crate::table::lemma_s_replace(predeps, d as int, (key, diff));
                    }
                } else {
                    proof {
                        crate::table::lemma_s_swap_remove(predeps, d as int);
                    }
                    self.market.storage_deposits.swap_remove(d);
                }
            },
            None => {
                proof {
                    assert(self.market.deposits_map() =~= pre.market.deposits_map().remove(
                        predecessor@,
                    ));
                }
            },
        }
        if remaining > 0 {
            Ok(
                Some(
                    common::FundTransfer {
                        ft_token_id: "near".to_owned(),
                        receiver_id: predecessor,
                        amount: remaining,
                    },
                ),
            )
        } else {
            Ok(None)
        }
    }
}

} // verus!
