//! The approval entry point: the token contract notifies the marketplace
//! that a token was approved for transfer, carrying the arguments of the
//! sale or auction to open.
use vstd::prelude::*;

use crate::auction::AuctionJson;
use crate::common::{AccountId, MarketError, Origins, TokenId, TokenType};
use crate::sale::{SaleConditions, SaleJson};

verus! {

/// Arguments of a fixed-price sale, as carried by the approval message.
#[derive(Debug)]
pub struct SaleArgs {
    pub sale_conditions: SaleConditions,
    pub token_type: TokenType,
    pub start: Option<u64>,
    pub end: Option<u64>,
    pub origins: Option<Origins>,
}

/// Arguments of an auction, as carried by the approval message.
#[derive(Debug)]
pub struct AuctionArgs {
    pub token_type: TokenType,
    pub minimal_step: u128,
    pub start_price: u128,
    pub start: Option<u64>,
    pub duration: u64,
    pub buy_out_price: Option<u128>,
    pub origins: Option<Origins>,
}

/// The decoded approval message: open a sale or open an auction.
#[derive(Debug)]
pub enum ArgsKind {
    Sale(SaleArgs),
    Auction(AuctionArgs),
}

/// What an approval notification created.
#[derive(Debug)]
pub enum ApproveOutcome {
    Sale(SaleJson),
    Auction(u128, AuctionJson),
}

/// Receiver of approval notifications from the token contract. The receiver
/// defines its own well-formedness, what arguments it can take, and the
/// meaning of a notification; `nft_on_approve` is then bound to that
/// meaning.
pub trait NonFungibleTokenApprovalReceiver: Sized {
    /// The receiver's state invariant.
    spec fn approve_wf(&self) -> bool;

    /// The arguments the receiver accepts.
    spec fn approve_args_wf(args: &ArgsKind) -> bool;

    /// What one notification does to the receiver.
    spec fn approve_post(
        &self,
        post: Self,
        token_id: TokenId,
        owner_id: AccountId,
        approval_id: u64,
        args: ArgsKind,
        nft_contract_id: AccountId,
        signer_id: AccountId,
        now: u64,
        r: Result<ApproveOutcome, MarketError>,
    ) -> bool;

    /// Handles "token `token_id` of `nft_contract_id`, owned by `owner_id`,
    /// was approved for transfer with `approval_id`": opens the sale or
    /// auction described by `args`.
    fn nft_on_approve(
        &mut self,
        token_id: TokenId,
        owner_id: AccountId,
        approval_id: u64,
        args: ArgsKind,
        nft_contract_id: AccountId,
        signer_id: AccountId,
        now: u64,
    ) -> (r: Result<ApproveOutcome, MarketError>)
        requires
            old(self).approve_wf(),
            Self::approve_args_wf(&args),
        ensures
            final(self).approve_wf(),
            old(self).approve_post(
                *final(self),
                token_id,
                owner_id,
                approval_id,
                args,
                nft_contract_id,
                signer_id,
                now,
                r,
            ),
    ;
}

impl NonFungibleTokenApprovalReceiver for crate::Market {
    open spec fn approve_wf(&self) -> bool {
        crate::market_wf(*self)
    }

    open spec fn approve_args_wf(args: &ArgsKind) -> bool {
        match args {
            ArgsKind::Sale(a) => crate::table::skeys_distinct(a.sale_conditions@),
            ArgsKind::Auction(_) => true,
        }
    }

    /// The notification must come from another contract, signed by the
    /// token's owner, who must have prepaid storage for one more listing;
    /// then the arguments open a sale or an auction with their respective
    /// contracts.
    open spec fn approve_post(
        &self,
        post: crate::Market,
        token_id: TokenId,
        owner_id: AccountId,
        approval_id: u64,
        args: ArgsKind,
        nft_contract_id: AccountId,
        signer_id: AccountId,
        now: u64,
        r: Result<ApproveOutcome, MarketError>,
    ) -> bool {
        let supply = if crate::table::s_has(self.market.by_owner_id@, signer_id@) {
            crate::table::s_at(self.market.by_owner_id@, signer_id@)@.len() as int
        } else {
            0
        };
        let required = (supply + 1) * (crate::STORAGE_PER_SALE as int);
        let paid = if self.market.deposits_map().dom().contains(signer_id@) {
            self.market.deposits_map()[signer_id@] as int
        } else {
            0
        };
        if nft_contract_id@ == signer_id@ {
            r matches Err(e) && e == MarketError::DirectApprovalCall && post == *self
        } else if owner_id@ != signer_id@ {
            r matches Err(e) && e == MarketError::ApprovalOwnerMismatch && post == *self
        } else if required > u128::MAX as int {
            r matches Err(e) && e == MarketError::Overflow && post == *self
        } else if paid < required {
            r matches Err(e) && e == MarketError::InsufficientStorage && post == *self
        } else {
            match args {
                ArgsKind::Sale(a) => match r {
                    Ok(ApproveOutcome::Sale(json)) => crate::sale::sale_started_post(
                        *self,
                        post,
                        a,
                        token_id,
                        owner_id,
                        approval_id,
                        nft_contract_id,
                        signer_id@,
                        now,
                        Ok(json),
                    ),
                    Ok(_) => false,
                    Err(e) => crate::sale::sale_started_post(
                        *self,
                        post,
                        a,
                        token_id,
                        owner_id,
                        approval_id,
                        nft_contract_id,
                        signer_id@,
                        now,
                        Err(e),
                    ),
                },
                ArgsKind::Auction(a) => match r {
                    Ok(ApproveOutcome::Auction(id, json)) => crate::auction::auction_started_post(
                        *self,
                        post,
                        a,
                        token_id,
                        owner_id,
                        approval_id,
                        nft_contract_id,
                        now,
                        Ok((id, json)),
                    ),
                    Ok(_) => false,
                    Err(e) => crate::auction::auction_started_post(
                        *self,
                        post,
                        a,
                        token_id,
                        owner_id,
                        approval_id,
                        nft_contract_id,
                        now,
                        Err(e),
                    ),
                },
            }
        }
    }

    fn nft_on_approve(
        &mut self,
        token_id: TokenId,
        owner_id: AccountId,
        approval_id: u64,
        args: ArgsKind,
        nft_contract_id: AccountId,
        signer_id: AccountId,
        now: u64,
    ) -> (r: Result<ApproveOutcome, MarketError>) {
        if nft_contract_id == signer_id {
            return Err(MarketError::DirectApprovalCall);
        }
        if !(owner_id == signer_id) {
            return Err(MarketError::ApprovalOwnerMismatch);
        }
        let supply: usize = match crate::table::s_find(&self.market.by_owner_id, &signer_id) {
            Some(i) => {
                proof {
                    crate::table::lemma_s_at_index(self.market.by_owner_id@, i as int);
                }
                self.market.by_owner_id[i].1.len()
            },
            None => 0,
        };
        let required: u128 = match ((supply as u128) + 1).checked_mul(crate::STORAGE_PER_SALE) {
            Some(v) => v,
            None => {
                return Err(MarketError::Overflow);
            },
        };
        let paid: u128 = match crate::table::s_find(&self.market.storage_deposits, &signer_id) {
            Some(d) => {
                proof {
                    crate::table::lemma_s_at_index(self.market.storage_deposits@, d as int);
                }
                self.market.storage_deposits[d].1
            },
            None => 0,
        };
        if paid < required {
            return Err(MarketError::InsufficientStorage);
        }
        match args {
            ArgsKind::Sale(a) => {
                match self.start_sale(
                    a,
                    token_id,
                    owner_id,
                    approval_id,
                    nft_contract_id,
                    &signer_id,
                    now,
                ) {
                    Ok(json) => Ok(ApproveOutcome::Sale(json)),
                    Err(e) => Err(e),
                }
            },
            ArgsKind::Auction(a) => {
                match self.start_auction(
                    a,
                    token_id,
                    owner_id,
                    approval_id,
                    nft_contract_id,
                    now,
                ) {
                    Ok((id, json)) => Ok(ApproveOutcome::Auction(id, json)),
                    Err(e) => Err(e),
                }
            },
        }
    }
}

} // verus!
