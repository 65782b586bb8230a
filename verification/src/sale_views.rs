//! Read-only views over the sales table and its discovery indices.
use vstd::prelude::*;

use crate::common::{sale_key_view, AccountId, TokenId};
use crate::sale::{Sale, SaleJson};
use crate::table::{lemma_s_at_index, s_at, s_find, s_has};
use crate::{market_wf, Market};

verus! {

/// The view mirrors the sale field by field (ledgers compared bid by bid).
pub open spec fn sale_json_like(j: SaleJson, s: Sale) -> bool {
    &&& j.owner_id@ == s.owner_id@
    &&& j.nft_contract_id@ == s.nft_contract_id@
    &&& j.token_id@ == s.token_id@
    &&& j.sale_conditions@ == s.sale_conditions@
    &&& crate::bid::bids_like(j.bids@, s.bids@)
    &&& j.created_at == s.created_at
    &&& (j.token_type is Some <==> s.token_type is Some)
    &&& (s.token_type is Some ==> j.token_type->0@ == s.token_type->0@)
    &&& j.start == s.start
    &&& j.end == s.end
    &&& j.origins@ == s.origins@
}

impl Market {
    /// Read-only view of a sale.
    pub fn json_from_sale(&self, sale: &Sale) -> (r: SaleJson)
        ensures
            sale_json_like(r, *sale),
    {
        SaleJson {
            owner_id: sale.owner_id.clone(),
            nft_contract_id: sale.nft_contract_id.clone(),
            token_id: sale.token_id.clone(),
            sale_conditions: Sale::copy_conditions(&sale.sale_conditions),
            bids: crate::bid::copy_bids(&sale.bids),
            created_at: sale.created_at,
            token_type: match &sale.token_type {
                Some(tt) => Some(tt.clone()),
                None => None,
            },
            start: sale.start,
            end: sale.end,
            origins: crate::bid::copy_origins(&sale.origins),
        }
    }

    /// Number of open sales.
    pub fn get_supply_sales(&self) -> (r: u64)
        requires
            self.market.sales@.len() <= u64::MAX,
        ensures
            r == self.market.sales@.len(),
    {
        self.market.sales.len() as u64
    }

    /// A page of the sales table: up to `limit` sales starting at position
    /// `from_index`, in storage order.
    pub fn get_sales(&self, from_index: Option<u128>, limit: Option<u64>) -> (r: Vec<SaleJson>)
        requires
            market_wf(*self),
        ensures
            ({
                let start = match from_index {
                    Some(f) => f as int,
                    None => 0,
                };
                let lim = match limit {
                    Some(l) => l as int,
                    None => self.market.sales@.len() as int,
                };
                let end = if start + lim <= self.market.sales@.len() {
                    start + lim
                } else {
                    self.market.sales@.len() as int
                };
                &&& r@.len() == (if start <= end {
                    end - start
                } else {
                    0
                })
                &&& forall|x: int|
                    0 <= x < r@.len() ==> sale_json_like(
                        #[trigger] r@[x],
                        self.market.sales@[start + x].1,
                    )
            }),
    {
        let n = self.market.sales.len();
        let start: usize = match from_index {
            Some(f) => {
                if f > (n as u128) {
                    n
                } else {
                    f as usize
                }
            },
            None => 0,
        };
        let end: usize = match limit {
            Some(l) => {
                if (l as u128) >= ((n - start) as u128) {
                    n
                } else {
                    start + (l as usize)
                }
            },
            None => n,
        };
        let mut out: Vec<SaleJson> = Vec::new();
        let mut x: usize = start;
        while x < end
            invariant
                start <= x <= end <= n,
                n == self.market.sales@.len(),
                out@.len() == x - start,
                forall|y: int|
                    0 <= y < out@.len() ==> sale_json_like(
                        #[trigger] out@[y],
                        self.market.sales@[start + y].1,
                    ),
            decreases end - x,
        {
            let json = self.json_from_sale(&self.market.sales[x].1);
            out.push(json);
            x = x + 1;
        }
        out
    }

    /// Number of open sales of the given owner.
    pub fn get_supply_by_owner_id(&self, account_id: AccountId) -> (r: u64)
        requires
            market_wf(*self),
            forall|i: int| 0 <= i < self.market.by_owner_id@.len()
                ==> (#[trigger] self.market.by_owner_id@[i]).1@.len() <= u64::MAX,
        ensures
            r == if s_has(self.market.by_owner_id@, account_id@) {
                s_at(self.market.by_owner_id@, account_id@)@.len() as int
            } else {
                0
            },
    {
        match s_find(&self.market.by_owner_id, &account_id) {
            Some(i) => {
                proof {
                    lemma_s_at_index(self.market.by_owner_id@, i as int);
                }
                self.market.by_owner_id[i].1.len() as u64
            },
            None => 0,
        }
    }

    /// A page of the given owner's sales, in index order.
    pub fn get_sales_by_owner_id(&self, account_id: AccountId, from_index: u64, limit: u64) -> (r:
        Vec<SaleJson>)
        requires
            market_wf(*self),
        ensures
            ({
                let keys = if s_has(self.market.by_owner_id@, account_id@) {
                    s_at(self.market.by_owner_id@, account_id@)@
                } else {
                    Seq::<crate::common::ContractAndTokenId>::empty()
                };
                let start = from_index as int;
                let end = if start + limit <= keys.len() {
                    start + limit
                } else {
                    keys.len() as int
                };
                &&& r@.len() == (if start <= end {
                    end - start
                } else {
                    0
                })
                &&& forall|x: int|
                    0 <= x < r@.len() ==> sale_json_like(
                        #[trigger] r@[x],
                        s_at(self.market.sales@, keys[start + x]@),
                    )
            }),
    {
        let mut out: Vec<SaleJson> = Vec::new();
        let i = match s_find(&self.market.by_owner_id, &account_id) {
            Some(i) => i,
            None => {
                return out;
            },
        };
        proof {
            lemma_s_at_index(self.market.by_owner_id@, i as int);
        }
        let keys = &self.market.by_owner_id[i].1;
        let n = keys.len();
        let start: usize = if from_index > (n as u64) {
            n
        } else {
            from_index as usize
        };
        let end: usize = if (limit as u128) >= ((n - start) as u128) {
            n
        } else {
            start + (limit as usize)
        };
        let mut x: usize = start;
        while x < end
            invariant
                market_wf(*self),
                i < self.market.by_owner_id@.len(),
                self.market.by_owner_id@[i as int].0@ == account_id@,
                s_has(self.market.by_owner_id@, account_id@),
                s_at(self.market.by_owner_id@, account_id@) == self.market.by_owner_id@[i as int].1,
                start <= x <= end <= n,
                n == self.market.by_owner_id@[i as int].1@.len(),
                out@.len() == x - start,
                forall|y: int|
                    0 <= y < out@.len() ==> sale_json_like(
                        #[trigger] out@[y],
                        s_at(
                            self.market.sales@,
                            self.market.by_owner_id@[i as int].1@[start + y]@,
                        ),
                    ),
            decreases end - x,
        {
            let key = &self.market.by_owner_id[i].1[x];
            let si = match s_find(&self.market.sales, key) {
                Some(si) => si,
                None => {
                    proof {
                        assert(false);
                    }
                    return out;
                },
            };
            proof {
                lemma_s_at_index(self.market.sales@, si as int);
            }
            let json = self.json_from_sale(&self.market.sales[si].1);
            out.push(json);
            x = x + 1;
        }
        out
    }

    /// Number of open sales under the given NFT contract.
    pub fn get_supply_by_nft_contract_id(&self, nft_contract_id: AccountId) -> (r: u64)
        requires
            market_wf(*self),
            forall|i: int| 0 <= i < self.market.by_nft_contract_id@.len()
                ==> (#[trigger] self.market.by_nft_contract_id@[i]).1@.len() <= u64::MAX,
        ensures
            r == if s_has(self.market.by_nft_contract_id@, nft_contract_id@) {
                s_at(self.market.by_nft_contract_id@, nft_contract_id@)@.len() as int
            } else {
                0
            },
    {
        match s_find(&self.market.by_nft_contract_id, &nft_contract_id) {
            Some(i) => {
                proof {
                    lemma_s_at_index(self.market.by_nft_contract_id@, i as int);
                }
                self.market.by_nft_contract_id[i].1.len() as u64
            },
            None => 0,
        }
    }

    /// A page of the sales under the given NFT contract, in index order.
    pub fn get_sales_by_nft_contract_id(
        &self,
        nft_contract_id: AccountId,
        from_index: u64,
        limit: u64,
    ) -> (r: Vec<SaleJson>)
        requires
            market_wf(*self),
        ensures
            ({
                let toks = if s_has(self.market.by_nft_contract_id@, nft_contract_id@) {
                    s_at(self.market.by_nft_contract_id@, nft_contract_id@)@
                } else {
                    Seq::<TokenId>::empty()
                };
                let start = from_index as int;
                let end = if start + limit <= toks.len() {
                    start + limit
                } else {
                    toks.len() as int
                };
                &&& r@.len() == (if start <= end {
                    end - start
                } else {
                    0
                })
                &&& forall|x: int|
                    0 <= x < r@.len() ==> sale_json_like(
                        #[trigger] r@[x],
                        s_at(
                            self.market.sales@,
                            sale_key_view(nft_contract_id@, toks[start + x]@),
                        ),
                    )
            }),
    {
        let mut out: Vec<SaleJson> = Vec::new();
        let i = match s_find(&self.market.by_nft_contract_id, &nft_contract_id) {
            Some(i) => i,
            None => {
                return out;
            },
        };
        proof {
            lemma_s_at_index(self.market.by_nft_contract_id@, i as int);
        }
        let n = self.market.by_nft_contract_id[i].1.len();
        let start: usize = if from_index > (n as u64) {
            n
        } else {
            from_index as usize
        };
        let end: usize = if (limit as u128) >= ((n - start) as u128) {
            n
        } else {
            start + (limit as usize)
        };
        let mut x: usize = start;
        while x < end
            invariant
                market_wf(*self),
                i < self.market.by_nft_contract_id@.len(),
                self.market.by_nft_contract_id@[i as int].0@ == nft_contract_id@,
                s_has(self.market.by_nft_contract_id@, nft_contract_id@),
                s_at(self.market.by_nft_contract_id@, nft_contract_id@)
                    == self.market.by_nft_contract_id@[i as int].1,
                start <= x <= end <= n,
                n == self.market.by_nft_contract_id@[i as int].1@.len(),
                out@.len() == x - start,
                forall|y: int|
                    0 <= y < out@.len() ==> sale_json_like(
                        #[trigger] out@[y],
                        s_at(
                            self.market.sales@,
                            sale_key_view(
                                nft_contract_id@,
                                self.market.by_nft_contract_id@[i as int].1@[start + y]@,
                            ),
                        ),
                    ),
            decreases end - x,
        {
            let token = &self.market.by_nft_contract_id[i].1[x];
            let key = crate::common::compose_sale_key(&nft_contract_id, token);
            let si = match s_find(&self.market.sales, &key) {
                Some(si) => si,
                None => {
                    proof {
                        assert(false);
                    }
                    return out;
                },
            };
            proof {
                lemma_s_at_index(self.market.sales@, si as int);
            }
            let json = self.json_from_sale(&self.market.sales[si].1);
            out.push(json);
            x = x + 1;
        }
        out
    }

    /// Number of open sales under the given token type.
    pub fn get_supply_by_nft_token_type(&self, token_type: String) -> (r: u64)
        requires
            market_wf(*self),
            forall|i: int| 0 <= i < self.market.by_nft_token_type@.len()
                ==> (#[trigger] self.market.by_nft_token_type@[i]).1@.len() <= u64::MAX,
        ensures
            r == if s_has(self.market.by_nft_token_type@, token_type@) {
                s_at(self.market.by_nft_token_type@, token_type@)@.len() as int
            } else {
                0
            },
    {
        match s_find(&self.market.by_nft_token_type, &token_type) {
            Some(i) => {
                proof {
                    lemma_s_at_index(self.market.by_nft_token_type@, i as int);
                }
                self.market.by_nft_token_type[i].1.len() as u64
            },
            None => 0,
        }
    }

    /// A page of the sales under the given token type, in index order.
    pub fn get_sales_by_nft_token_type(
        &self,
        token_type: String,
        from_index: u64,
        limit: u64,
    ) -> (r: Vec<SaleJson>)
        requires
            market_wf(*self),
        ensures
            ({
                let keys = if s_has(self.market.by_nft_token_type@, token_type@) {
                    s_at(self.market.by_nft_token_type@, token_type@)@
                } else {
                    Seq::<crate::common::ContractAndTokenId>::empty()
                };
                let start = from_index as int;
                let end = if start + limit <= keys.len() {
                    start + limit
                } else {
                    keys.len() as int
                };
                &&& r@.len() == (if start <= end {
                    end - start
                } else {
                    0
                })
                &&& forall|x: int|
                    0 <= x < r@.len() ==> sale_json_like(
                        #[trigger] r@[x],
                        s_at(self.market.sales@, keys[start + x]@),
                    )
            }),
    {
        let mut out: Vec<SaleJson> = Vec::new();
        let i = match s_find(&self.market.by_nft_token_type, &token_type) {
            Some(i) => i,
            None => {
                return out;
            },
        };
        proof {
            lemma_s_at_index(self.market.by_nft_token_type@, i as int);
        }
        let n = self.market.by_nft_token_type[i].1.len();
        let start: usize = if from_index > (n as u64) {
            n
        } else {
            from_index as usize
        };
        let end: usize = if (limit as u128) >= ((n - start) as u128) {
            n
        } else {
            start + (limit as usize)
        };
        let mut x: usize = start;
        while x < end
            invariant
                market_wf(*self),
                i < self.market.by_nft_token_type@.len(),
                self.market.by_nft_token_type@[i as int].0@ == token_type@,
                s_has(self.market.by_nft_token_type@, token_type@),
                s_at(self.market.by_nft_token_type@, token_type@)
                    == self.market.by_nft_token_type@[i as int].1,
                start <= x <= end <= n,
                n == self.market.by_nft_token_type@[i as int].1@.len(),
                out@.len() == x - start,
                forall|y: int|
                    0 <= y < out@.len() ==> sale_json_like(
                        #[trigger] out@[y],
                        s_at(
                            self.market.sales@,
                            self.market.by_nft_token_type@[i as int].1@[start + y]@,
                        ),
                    ),
            decreases end - x,
        {
            let key = &self.market.by_nft_token_type[i].1[x];
            let si = match s_find(&self.market.sales, key) {
                Some(si) => si,
                None => {
                    proof {
                        assert(false);
                    }
                    return out;
                },
            };
            proof {
                lemma_s_at_index(self.market.sales@, si as int);
            }
            let json = self.json_from_sale(&self.market.sales[si].1);
            out.push(json);
            x = x + 1;
        }
        out
    }

    /// The sale listed for the given token, if any.
    pub fn get_sale(&self, nft_contract_id: AccountId, token_id: TokenId) -> (r: Option<SaleJson>)
        requires
            market_wf(*self),
        ensures
            ({
                let k = sale_key_view(nft_contract_id@, token_id@);
                match r {
                    Some(json) => s_has(self.market.sales@, k) && sale_json_like(
                        json,
                        s_at(self.market.sales@, k),
                    ),
                    None => !s_has(self.market.sales@, k),
                }
            }),
    {
        let key = crate::common::compose_sale_key(&nft_contract_id, &token_id);
        match s_find(&self.market.sales, &key) {
            Some(i) => {
                proof {
                    lemma_s_at_index(self.market.sales@, i as int);
                }
                Some(self.json_from_sale(&self.market.sales[i].1))
            },
            None => None,
        }
    }
}

} // verus!
