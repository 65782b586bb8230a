//! Shared data model: identities, currencies, bids, listings, transfer
//! instructions and the error taxonomy.
//!
//! All maps of the persisted state are association lists (`Vec` of pairs) with
//! pairwise-distinct keys; the well-formedness predicates live with the types
//! that own them.
use vstd::prelude::*;
use vstd::string::{StrSliceExecFns, StringExecFns};

verus! {

/// An account name. Account identity is opaque to the marketplace: it is only
/// ever compared for equality and handed back in transfer instructions.
pub type AccountId = String;

/// Token identifier inside an NFT contract.
pub type TokenId = String;

/// A currency: the account of a fungible-token contract, or the distinguished
/// name `"near"` for the native currency.
pub type FungibleTokenId = String;

/// Listing key: NFT contract account, the delimiter `"||"`, then the token id.
pub type ContractAndTokenId = String;

/// Optional token-type tag of a listing (a substring of its token id).
pub type TokenType = Option<String>;

/// Fee-share set: beneficiary account -> weight out of `PAYOUT_TOTAL_VALUE`.
pub type Origins = Vec<(AccountId, u32)>;

/// One instruction to move `amount` units of `ft_token_id` to `receiver_id`.
/// The library never moves funds itself; it returns these for the runtime
/// shell to execute.
#[derive(Debug)]
pub struct FundTransfer {
    pub ft_token_id: FungibleTokenId,
    pub receiver_id: AccountId,
    pub amount: u128,
}

/// Reason a call was rejected. No state is mutated when one is returned.
#[derive(Clone, Copy, Debug, PartialEq, Eq, Structural)]
pub enum MarketError {
    /// The currency is not in the market's supported list.
    NotSupportedFt,
    /// The fee-share weights reach the `ORIGINS_CAP` limit.
    MaxOriginsExceeded,
    /// An intermediate amount does not fit the machine integers.
    Overflow,
    /// No sale under the given listing key.
    NoSale,
    /// A sale is already stored under the listing key.
    AlreadyExists,
    /// No auction under the given id.
    NoAuction,
    /// The sale has no bid in the given currency.
    NoBids,
    /// No bid matches the given owner and price.
    NoSuchBid,
    /// The bid's validity window has not ended yet.
    BidNotEnded,
    /// The bid has no validity end to wait for.
    BidHasNoEnd,
    /// The bid's own validity window has passed.
    BidOutOfLimits,
    /// Fee-exclusive amount does not exceed the current best bid.
    BidTooLow,
    /// Only the listing owner may do this.
    NotOwner,
    /// The owner may not bid on their own listing.
    OwnerCannotBid,
    /// The sale is finished or has not started yet.
    SaleNotInProgress,
    /// The auction is finished or has not started yet.
    AuctionNotInProgress,
    /// An attached payment is required.
    ZeroDeposit,
    /// The attached payment is under the minimal allowed bid.
    DepositTooLow,
    /// The auction already has a bid and cannot be cancelled.
    AuctionHasBid,
    /// The auction end time has not been reached.
    AuctionNotFinished,
    /// The auction cannot settle without a bid.
    NoBid,
    /// Auction duration out of the allowed range.
    IncorrectDuration,
    /// Start time lies in the past.
    IncorrectStartTime,
    /// The owner has not prepaid storage for one more listing.
    InsufficientStorage,
    /// The attached deposit is not the required single yocto unit.
    NotOneYocto,
    /// The deposit is under the minimum storage payment.
    DepositBelowStorageMinimum,
    /// The token type must be a substring of the token id.
    TokenTypeMismatch,
    /// Approval notifications must come from another contract.
    DirectApprovalCall,
    /// The approval notification must be signed by the token owner.
    ApprovalOwnerMismatch,
}

impl MarketError {
    /// Human-readable reason, as the rejection message of the call.
    pub fn message(&self) -> String {
        match self {
            MarketError::NotSupportedFt => "Token not supported by this market".to_owned(),
            MarketError::MaxOriginsExceeded => "Max origins exceeded".to_owned(),
            MarketError::Overflow => "Arithmetic overflow".to_owned(),
            MarketError::NoSale => "No sale".to_owned(),
            MarketError::AlreadyExists => "Sale already exists".to_owned(),
            MarketError::NoAuction => "Auction is not active".to_owned(),
            MarketError::NoBids => "No bids".to_owned(),
            MarketError::NoSuchBid => "No such bid".to_owned(),
            MarketError::BidNotEnded => "The bid hasn't ended yet".to_owned(),
            MarketError::BidHasNoEnd => "The bid doesn't have an end".to_owned(),
            MarketError::BidOutOfLimits => "Out of time limit of the bid".to_owned(),
            MarketError::BidTooLow => {
                "Can't pay less than or equal to current bid price".to_owned()
            },
            MarketError::NotOwner => "Must be the listing owner".to_owned(),
            MarketError::OwnerCannotBid => "Cannot bid on your own listing".to_owned(),
            MarketError::SaleNotInProgress => {
                "Either the sale is finished or it hasn't started yet".to_owned()
            },
            MarketError::AuctionNotInProgress => "Auction is not in progress".to_owned(),
            MarketError::ZeroDeposit => "Attached deposit must be greater than 0".to_owned(),
            MarketError::DepositTooLow => "Should bid at least the minimal price".to_owned(),
            MarketError::AuctionHasBid => {
                "Can't cancel the auction after the first bid is made".to_owned()
            },
            MarketError::AuctionNotFinished => {
                "Auction can be finalized only after the end time".to_owned()
            },
            MarketError::NoBid => "Can finalize only if there is a bid".to_owned(),
            MarketError::IncorrectDuration => "Incorrect duration".to_owned(),
            MarketError::IncorrectStartTime => "incorrect start time".to_owned(),
            MarketError::InsufficientStorage => {
                "User has more sales than storage paid".to_owned()
            },
            MarketError::NotOneYocto => {
                "Requires attached deposit of exactly 1 yoctoNEAR".to_owned()
            },
            MarketError::DepositBelowStorageMinimum => {
                "Requires minimum deposit".to_owned()
            },
            MarketError::TokenTypeMismatch => {
                "TokenType should be substr of TokenId".to_owned()
            },
            MarketError::DirectApprovalCall => {
                "nft_on_approve should only be called via cross-contract call".to_owned()
            },
            MarketError::ApprovalOwnerMismatch => "owner_id should be signer_id".to_owned(),
        }
    }
}

/// Nanoseconds in one second; all times are nanosecond timestamps.
pub const NANOS_PER_SEC: u64 = 1_000_000_000;

/// Listing key of a token: NFT contract account, `"||"`, token id.
pub open spec fn sale_key_view(contract: Seq<char>, token: Seq<char>) -> Seq<char> {
    contract + "||"@ + token
}

/// Builds the listing key of a token.
pub fn compose_sale_key(nft_contract_id: &String, token_id: &String) -> (r: ContractAndTokenId)
    ensures
        r@ == sale_key_view(nft_contract_id@, token_id@),
{
    let mut key = nft_contract_id.clone();
    key.append("||");
    key.append(token_id.as_str());
    key
}

/// `needle` occurs in `hay` starting at character offset `off`.
pub open spec fn is_substring_at(hay: Seq<char>, needle: Seq<char>, off: int) -> bool {
    0 <= off && off + needle.len() <= hay.len() && hay.subrange(off, off + needle.len()) == needle
}

/// `needle` occurs somewhere in `hay`.
pub open spec fn spec_contains_str(hay: Seq<char>, needle: Seq<char>) -> bool {
    exists|off: int| is_substring_at(hay, needle, off)
}

/// Whether `needle` occurs as a contiguous substring of `hay`.
pub fn str_contains(hay: &String, needle: &String) -> (r: bool)
    ensures
        r == spec_contains_str(hay@, needle@),
{
    let hs = hay.as_str();
    let ns = needle.as_str();
    let hn = hs.unicode_len();
    let nn = ns.unicode_len();
    if nn > hn {
        proof {
            assert(forall|off: int| !is_substring_at(hay@, needle@, off));
        }
        return false;
    }
    let mut off: usize = 0;
    while off <= hn - nn
        invariant
            0 <= off <= hn - nn + 1,
            nn <= hn,
            hn == hay@.len(),
            nn == needle@.len(),
            hs@ == hay@,
            ns@ == needle@,
            forall|o: int| 0 <= o < off ==> !is_substring_at(hay@, needle@, o),
        decreases hn - nn - off + 1,
    {
        let mut j: usize = 0;
        let mut mismatch = false;
        while j < nn && !mismatch
            invariant
                0 <= j <= nn,
                off + nn <= hn,
                hn == hay@.len(),
                nn == needle@.len(),
                hs@ == hay@,
                ns@ == needle@,
                !mismatch ==> forall|p: int| 0 <= p < j ==> hay@[off + p] == needle@[p],
                mismatch ==> exists|p: int| 0 <= p < nn && hay@[off + p] != #[trigger] needle@[p],
            decreases nn - j, (if mismatch { 0int } else { 1int }),
        {
            let hc = hs.get_char(off + j);
            let nc = ns.get_char(j);
            if hc != nc {
                mismatch = true;
            } else {
                j = j + 1;
            }
        }
        if !mismatch {
            proof {
                assert(hay@.subrange(off as int, off + nn) =~= needle@);
                assert(is_substring_at(hay@, needle@, off as int));
            }
            return true;
        }
        proof {
            let p = choose|p: int| 0 <= p < nn && hay@[off + p] != #[trigger] needle@[p];
            assert(!is_substring_at(hay@, needle@, off as int)) by {
                if is_substring_at(hay@, needle@, off as int) {
                    assert(hay@.subrange(off as int, off + nn)[p] == needle@[p]);
                }
            }
        }
        off = off + 1;
    }
    proof {
        assert forall|o: int| !is_substring_at(hay@, needle@, o) by {
            if 0 <= o <= hn - nn {
            } else {
            }
        }
    }
    false
}

} // verus!
