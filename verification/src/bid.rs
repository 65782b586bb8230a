//! Bids and the per-currency bid ledger kept inside a sale.
//!
//! A ledger bucket is the ordered history of bids in one currency, oldest
//! first. It is never empty, never longer than the market's configured
//! history length, and strictly increasing in fee-exclusive actual amount.
use vstd::prelude::*;

use crate::common::{AccountId, FundTransfer, FungibleTokenId, MarketError, Origins};
use crate::fee::{
    calculate_actual_amount, calculate_origins, spec_actual_amount, sum_weights, ORIGINS_CAP,
    PROTOCOL_FEE,
};
use crate::table::{
    lemma_s_at_index, lemma_s_swap_remove, s_at, s_find, s_has, s_map, skeys_distinct,
};

verus! {

/// One bid: who bid, the attached gross price, the validity window, and the
/// fee-share set the bidder attached.
#[derive(Debug)]
pub struct Bid {
    pub owner_id: AccountId,
    pub price: u128,
    pub start: u64,
    pub end: Option<u64>,
    pub origins: Origins,
}

/// Bid ledger of a sale: one bucket of ordered bids per currency.
pub type Bids = Vec<(FungibleTokenId, Vec<Bid>)>;

/// Total weight of the bid's fee-share set.
pub open spec fn spec_bid_total(b: Bid) -> int {
    sum_weights(b.origins@)
}

/// Fee-exclusive actual amount of the bid: its gross price with the protocol
/// fee and the bid's own fee shares stripped.
pub open spec fn spec_bid_actual(b: Bid) -> int {
    spec_actual_amount(b.price as int, spec_bid_total(b))
}

/// A stored bid is well formed: its fee-share total is under the cap and its
/// price keeps the fee arithmetic inside the machine integers.
pub open spec fn bid_wf(b: Bid) -> bool {
    &&& 0 <= spec_bid_total(b) < ORIGINS_CAP as int
    &&& (b.price as int) * (spec_bid_total(b) + PROTOCOL_FEE as int) <= u128::MAX as int
}

/// The bid is actionable at time `now`: its validity window is half-open,
/// `[start, end)`, so the bid already acts at its start and no longer at
/// its end (an absent end never restricts).
pub open spec fn spec_bid_in_limits(b: Bid, now: u64) -> bool {
    b.start <= now && match b.end {
        Some(e) => now < e,
        None => true,
    }
}

/// Bucket history is strictly increasing in actual amount, oldest first.
pub open spec fn bids_increasing(bs: Seq<Bid>) -> bool {
    forall|i: int, j: int| 0 <= i < j < bs.len() ==> spec_bid_actual(bs[i]) < spec_bid_actual(
        bs[j],
    )
}

/// A stored bucket: non-empty, within the history cap, strictly increasing,
/// all bids well formed.
pub open spec fn bucket_wf(bs: Seq<Bid>, cap: int) -> bool {
    &&& 0 < bs.len() <= cap
    &&& bids_increasing(bs)
    &&& forall|i: int| 0 <= i < bs.len() ==> bid_wf(#[trigger] bs[i])
}

/// A whole ledger: distinct currency keys, each bucket well formed.
pub open spec fn bids_wf(bids: Seq<(FungibleTokenId, Vec<Bid>)>, cap: int) -> bool {
    &&& skeys_distinct(bids)
    &&& forall|i: int| 0 <= i < bids.len() ==> bucket_wf(#[trigger] bids[i].1@, cap)
}

impl Bid {
    /// Whether the bid is actionable at time `now`.
    pub fn in_limits(&self, now: u64) -> (r: bool)
        ensures
            r == spec_bid_in_limits(*self, now),
    {
        let res_start = self.start <= now;
        let res_end = match self.end {
            Some(e) => now < e,
            None => true,
        };
        res_end && res_start
    }
}

/// An exact copy of a fee-share set.
pub fn copy_origins(origins: &Origins) -> (r: Origins)
    ensures
        r@ == origins@,
{
    let mut out: Origins = Vec::new();
    let n = origins.len();
    let mut i: usize = 0;
    while i < n
        invariant
            0 <= i <= n,
            n == origins@.len(),
            out@ =~= origins@.take(i as int),
        decreases n - i,
    {
        let w = origins[i].1;
        out.push((origins[i].0.clone(), w));
        proof {
            assert(out@ =~= origins@.take(i + 1));
        }
        i = i + 1;
    }
    proof {
        assert(origins@.take(n as int) =~= origins@);
    }
    out
}

/// Two bids agree on every field (fee-share sets compared element-wise).
/// This is how a read-only copy of a bid relates to its original.
pub open spec fn bid_like(a: Bid, b: Bid) -> bool {
    &&& a.owner_id@ == b.owner_id@
    &&& a.price == b.price
    &&& a.start == b.start
    &&& a.end == b.end
    &&& a.origins@ == b.origins@
}

/// Two buckets hold pairwise agreeing bids.
pub open spec fn bucket_like(a: Seq<Bid>, b: Seq<Bid>) -> bool {
    a.len() == b.len() && forall|i: int| 0 <= i < a.len() ==> bid_like(
        #[trigger] a[i],
        #[trigger] b[i],
    )
}

/// Two ledgers hold pairwise agreeing buckets under the same currencies.
pub open spec fn bids_like(
    a: Seq<(FungibleTokenId, Vec<Bid>)>,
    b: Seq<(FungibleTokenId, Vec<Bid>)>,
) -> bool {
    a.len() == b.len() && forall|i: int|
        0 <= i < a.len() ==> (#[trigger] a[i].0)@ == (#[trigger] b[i].0)@ && bucket_like(
            a[i].1@,
            b[i].1@,
        )
}

/// The bid belongs to `owner` and carries exactly the gross `price`.
pub open spec fn bid_matches(b: Bid, owner: Seq<char>, price: u128) -> bool {
    b.owner_id@ == owner && b.price == price
}

/// Removing one bid keeps a bucket strictly increasing and its bids well
/// formed.
pub proof fn lemma_bucket_remove(bs: Seq<Bid>, i: int)
    requires
        bids_increasing(bs),
        forall|p: int| 0 <= p < bs.len() ==> bid_wf(#[trigger] bs[p]),
        0 <= i < bs.len(),
    ensures
        bids_increasing(bs.remove(i)),
        forall|p: int| 0 <= p < bs.remove(i).len() ==> bid_wf(#[trigger] bs.remove(i)[p]),
{
    let t = bs.remove(i);
    assert forall|p: int, q: int| 0 <= p < q < t.len() implies spec_bid_actual(t[p])
        < spec_bid_actual(t[q]) by {
        let p2 = if p < i {
            p
        } else {
            p + 1
        };
        let q2 = if q < i {
            q
        } else {
            q + 1
        };
        assert(t[p] == bs[p2] && t[q] == bs[q2]);
    }
    assert forall|p: int| 0 <= p < t.len() implies bid_wf(#[trigger] t[p]) by {
        let p2 = if p < i {
            p
        } else {
            p + 1
        };
        assert(t[p] == bs[p2]);
    }
}

/// A read-only copy of a bid, agreeing on every field.
pub fn copy_bid(b: &Bid) -> (r: Bid)
    ensures
        bid_like(r, *b),
{
    Bid {
        owner_id: b.owner_id.clone(),
        price: b.price,
        start: b.start,
        end: b.end,
        origins: copy_origins(&b.origins),
    }
}

/// A read-only copy of a bucket of bids.
pub fn copy_bucket(bs: &Vec<Bid>) -> (r: Vec<Bid>)
    ensures
        bucket_like(r@, bs@),
{
    let mut out: Vec<Bid> = Vec::new();
    let n = bs.len();
    let mut i: usize = 0;
    while i < n
        invariant
            0 <= i <= n,
            n == bs@.len(),
            out@.len() == i,
            forall|j: int| 0 <= j < i ==> bid_like(#[trigger] out@[j], #[trigger] bs@[j]),
        decreases n - i,
    {
        out.push(copy_bid(&bs[i]));
        i = i + 1;
    }
    out
}

/// The data of a transfer instruction: currency, receiver, amount.
pub open spec fn transfer_view(t: FundTransfer) -> (Seq<char>, Seq<char>, u128) {
    (t.ft_token_id@, t.receiver_id@, t.amount)
}

/// The refund a bid is owed: its gross price, in its currency, back to its
/// owner.
pub open spec fn bid_refund_view(ft: Seq<char>, b: Bid) -> (Seq<char>, Seq<char>, u128) {
    (ft, b.owner_id@, b.price)
}

/// Refunds owed to every bid of one bucket, oldest first.
pub open spec fn bucket_refund_views(ft: Seq<char>, bs: Seq<Bid>) -> Seq<
    (Seq<char>, Seq<char>, u128),
> {
    bs.map_values(|b: Bid| bid_refund_view(ft, b))
}

/// Refunds owed to every bid of a whole ledger, bucket by bucket.
pub open spec fn ledger_refund_views(bids: Seq<(FungibleTokenId, Vec<Bid>)>) -> Seq<
    (Seq<char>, Seq<char>, u128),
>
    decreases bids.len(),
{
    if bids.len() == 0 {
        Seq::empty()
    } else {
        ledger_refund_views(bids.drop_last()) + bucket_refund_views(
            bids.last().0@,
            bids.last().1@,
        )
    }
}

/// A read-only copy of a whole ledger.
pub fn copy_bids(bids: &Bids) -> (r: Bids)
    ensures
        bids_like(r@, bids@),
{
    let mut out: Bids = Vec::new();
    let n = bids.len();
    let mut i: usize = 0;
    while i < n
        invariant
            0 <= i <= n,
            n == bids@.len(),
            out@.len() == i,
            forall|j: int| 0 <= j < i ==> (#[trigger] out@[j].0)@ == (#[trigger] bids@[j].0)@
                && bucket_like(out@[j].1@, bids@[j].1@),
        decreases n - i,
    {
        let bucket = copy_bucket(&bids[i].1);
        out.push((bids[i].0.clone(), bucket));
        i = i + 1;
    }
    out
}

/// Law: in a well-formed market, every stored bid list is strictly
/// increasing in fee-exclusive actual amount, oldest bid first. A submission
/// whose actual amount does not exceed the last stored one is rejected by
/// `add_bid` with `BidTooLow`, leaving the state unchanged (see its
/// contract).
pub proof fn lemma_ledger_strictly_increasing(m: crate::Market, k: Seq<char>, ft: Seq<char>)
    requires
        crate::market_wf(m),
        m.market.sales_map().dom().contains(k),
        s_has(m.market.sales_map()[k].bids@, ft),
    ensures
        bids_increasing(s_at(m.market.sales_map()[k].bids@, ft)@),
{
    let sales = m.market.sales@;
    let ka = choose|ka: int| 0 <= ka < sales.len() && #[trigger] sales[ka].0@ == k;
    lemma_s_at_index(sales, ka);
    let bids = sales[ka].1.bids@;
    let jb = choose|jb: int| 0 <= jb < bids.len() && #[trigger] bids[jb].0@ == ft;
    lemma_s_at_index(bids, jb);
}

/// Law: no stored bid list is empty or longer than the market's configured
/// history cap. Whenever an insert would exceed the cap, `add_bid` evicts
/// the oldest bid and returns a refund instruction over its stored gross
/// price (see its contract).
pub proof fn lemma_ledger_within_capacity(m: crate::Market, k: Seq<char>, ft: Seq<char>)
    requires
        crate::market_wf(m),
        m.market.sales_map().dom().contains(k),
        s_has(m.market.sales_map()[k].bids@, ft),
    ensures
        0 < s_at(m.market.sales_map()[k].bids@, ft)@.len() <= m.market.bid_history_length as int,
{
    let sales = m.market.sales@;
    let ka = choose|ka: int| 0 <= ka < sales.len() && #[trigger] sales[ka].0@ == k;
    lemma_s_at_index(sales, ka);
    let bids = sales[ka].1.bids@;
    let jb = choose|jb: int| 0 <= jb < bids.len() && #[trigger] bids[jb].0@ == ft;
    lemma_s_at_index(bids, jb);
}

/// The bid's validity window has ended by time `now`.
pub open spec fn spec_bid_expired(b: Bid, now: u64) -> bool {
    b.end is Some && now >= b.end->0
}

/// The bids of a bucket that are still valid at time `now`, in order.
pub open spec fn keep_unexpired(bs: Seq<Bid>, now: u64) -> Seq<Bid>
    decreases bs.len(),
{
    if bs.len() == 0 {
        Seq::empty()
    } else {
        let rest = keep_unexpired(bs.drop_last(), now);
        if spec_bid_expired(bs.last(), now) {
            rest
        } else {
            rest.push(bs.last())
        }
    }
}

/// The refunds owed to the expired bids of a bucket, in order.
pub open spec fn expired_refund_views(ft: Seq<char>, bs: Seq<Bid>, now: u64) -> Seq<
    (Seq<char>, Seq<char>, u128),
>
    decreases bs.len(),
{
    if bs.len() == 0 {
        Seq::empty()
    } else {
        let rest = expired_refund_views(ft, bs.drop_last(), now);
        if spec_bid_expired(bs.last(), now) {
            rest.push(bid_refund_view(ft, bs.last()))
        } else {
            rest
        }
    }
}

/// Filtering the expired bids out keeps a bucket's order, well-formedness
/// and length bound, and every kept bid comes from the original bucket.
pub proof fn lemma_keep_unexpired_props(bs: Seq<Bid>, now: u64)
    ensures
        keep_unexpired(bs, now).len() <= bs.len(),
        forall|p: int|
            #![trigger keep_unexpired(bs, now)[p]]
            0 <= p < keep_unexpired(bs, now).len() ==> exists|w: int|
                0 <= w < bs.len() && keep_unexpired(bs, now)[p] == #[trigger] bs[w],
        bids_increasing(bs) ==> bids_increasing(keep_unexpired(bs, now)),
        (forall|i: int| 0 <= i < bs.len() ==> bid_wf(#[trigger] bs[i])) ==> (forall|p: int|
            0 <= p < keep_unexpired(bs, now).len() ==> bid_wf(
                #[trigger] keep_unexpired(bs, now)[p],
            )),
    decreases bs.len(),
{
    if bs.len() > 0 {
        let butlast = bs.drop_last();
        lemma_keep_unexpired_props(butlast, now);
        let rest = keep_unexpired(butlast, now);
        let keep = keep_unexpired(bs, now);
        assert forall|p: int| #![trigger keep[p]] 0 <= p < keep.len() implies exists|w: int|
            0 <= w < bs.len() && keep[p] == #[trigger] bs[w] by {
            if p < rest.len() {
                let w = choose|w: int| 0 <= w < butlast.len() && rest[p] == #[trigger] butlast[w];
                assert(keep[p] == bs[w]);
            } else {
                assert(keep[p] == bs[bs.len() - 1]);
            }
        }
        if bids_increasing(bs) {
            assert(bids_increasing(butlast)) by {
                assert forall|i: int, j: int|
                    0 <= i < j < butlast.len() implies spec_bid_actual(butlast[i])
                    < spec_bid_actual(butlast[j]) by {
                    assert(butlast[i] == bs[i] && butlast[j] == bs[j]);
                }
            }
            assert forall|i: int, j: int| 0 <= i < j < keep.len() implies spec_bid_actual(keep[i])
                < spec_bid_actual(keep[j]) by {
                if j < rest.len() {
                } else if !spec_bid_expired(bs.last(), now) && j == rest.len() {
                    let w = choose|w: int|
                        0 <= w < butlast.len() && rest[i] == #[trigger] butlast[w];
                    assert(keep[i] == bs[w]);
                    assert(keep[j] == bs[bs.len() - 1]);
                    assert(spec_bid_actual(bs[w]) < spec_bid_actual(bs[bs.len() - 1]));
                }
            }
        }
        if forall|i: int| 0 <= i < bs.len() ==> bid_wf(#[trigger] bs[i]) {
            assert forall|p: int| 0 <= p < keep.len() implies bid_wf(#[trigger] keep[p]) by {
                let w = choose|w: int| 0 <= w < bs.len() && keep[p] == #[trigger] bs[w];
            }
        }
    }
}

/// Index of the first bid in the bucket owned by `owner` at gross price
/// `price`, if any.
pub fn find_first_match(bucket: &Vec<Bid>, owner: &AccountId, price: u128) -> (r: Option<usize>)
    ensures
        match r {
            Some(idx) => idx < bucket@.len() && bid_matches(bucket@[idx as int], owner@, price)
                && forall|j: int| 0 <= j < idx ==> !bid_matches(
                #[trigger] bucket@[j],
                owner@,
                price,
            ),
            None => forall|j: int|
                0 <= j < bucket@.len() ==> !bid_matches(#[trigger] bucket@[j], owner@, price),
        },
{
    let n = bucket.len();
    let mut idx: usize = 0;
    while idx < n
        invariant
            0 <= idx <= n,
            n == bucket@.len(),
            forall|j: int| 0 <= j < idx ==> !bid_matches(#[trigger] bucket@[j], owner@, price),
        decreases n - idx,
    {
        let b = &bucket[idx];
        if b.owner_id == *owner && b.price == price {
            return Some(idx);
        }
        idx = idx + 1;
    }
    None
}

/// The fee-share set a bidder attached, as a sequence: absent means empty.
pub open spec fn spec_opt_origins(origins: Option<Origins>) -> Seq<(AccountId, u32)> {
    match origins {
        Some(o) => o@,
        None => Seq::empty(),
    }
}

/// What a successful bid submission did to the market: the new bid stands
/// last in its currency's bucket, everything else is untouched, and when the
/// bucket was full its oldest bid was evicted against the returned refund
/// instruction.
pub open spec fn bid_added_post(
    pre: crate::Market,
    post: crate::Market,
    k: Seq<char>,
    ft: Seq<char>,
    amount: u128,
    buyer_id: AccountId,
    start: u64,
    end: Option<u64>,
    origins: Option<Origins>,
    refund: Option<FundTransfer>,
) -> bool {
    let sm = pre.market.sales_map();
    let t = sum_weights(spec_opt_origins(origins));
    let cap = pre.market.bid_history_length as int;
    &&& crate::inner::same_but_sales(post, pre)
    &&& pre.market.supports_ft(ft)
    &&& 0 <= t < ORIGINS_CAP as int
    &&& (amount as int) * (t + PROTOCOL_FEE as int) <= u128::MAX as int
    &&& sm.dom().contains(k)
    &&& post.market.sales_map().dom() == sm.dom()
    &&& forall|m: Seq<char>|
        sm.dom().contains(m) && m != k ==> post.market.sales_map()[m] == sm[m]
    &&& ({
        let sale0 = sm[k];
        let sale1 = post.market.sales_map()[k];
        let bucket0 = if s_has(sale0.bids@, ft) {
            s_at(sale0.bids@, ft)@
        } else {
            Seq::<Bid>::empty()
        };
        let bucket1 = s_at(sale1.bids@, ft)@;
        &&& crate::inner::same_sale_except_bids(sale1, sale0)
        &&& forall|ft2: Seq<char>|
            ft2 != ft ==> s_has(sale1.bids@, ft2) == s_has(sale0.bids@, ft2)
        &&& forall|ft2: Seq<char>|
            ft2 != ft && s_has(sale0.bids@, ft2) ==> s_at(sale1.bids@, ft2) == s_at(
                sale0.bids@,
                ft2,
            )
        &&& s_has(sale1.bids@, ft)
        &&& bucket0.len() > 0 ==> spec_actual_amount(amount as int, t) > spec_bid_actual(
            bucket0.last(),
        )
        &&& ({
            let nb = bucket1.last();
            nb.owner_id == buyer_id && nb.price == amount && nb.start == start && nb.end == end
                && nb.origins@ == spec_opt_origins(origins)
        })
        &&& if bucket0.len() < cap {
            bucket1.drop_last() == bucket0 && refund is None
        } else {
            bucket1.drop_last() == bucket0.drop_first() && bucket1.len() == cap && (refund
                matches Some(tr) && tr.ft_token_id@ == ft && tr.receiver_id == bucket0[0].owner_id
                && tr.amount == bucket0[0].price)
        }
    })
}

impl crate::Market {
    /// The transfer instruction returning a bid's gross price to its owner,
    /// in the bid's currency.
    pub fn refund_bid(bid_ft: FungibleTokenId, owner_id: AccountId, price: u128) -> (t:
        FundTransfer)
        ensures
            t.ft_token_id == bid_ft,
            t.receiver_id == owner_id,
            t.amount == price,
    {
        FundTransfer { ft_token_id: bid_ft, receiver_id: owner_id, amount: price }
    }

    /// The refund instructions for every outstanding bid of a ledger, bucket
    /// by bucket, oldest first.
    pub fn refund_all_bids(bids_map: &Bids) -> (r: Vec<FundTransfer>)
        ensures
            r@.map_values(|t: FundTransfer| transfer_view(t)) == ledger_refund_views(bids_map@),
    {
        let mut out: Vec<FundTransfer> = Vec::new();
        let n = bids_map.len();
        let mut i: usize = 0;
        proof {
            assert(bids_map@.take(0) =~= Seq::<(FungibleTokenId, Vec<Bid>)>::empty());
            assert(out@.map_values(|t: FundTransfer| transfer_view(t)) =~= ledger_refund_views(
                bids_map@.take(0),
            ));
        }
        while i < n
            invariant
                0 <= i <= n,
                n == bids_map@.len(),
                out@.map_values(|t: FundTransfer| transfer_view(t)) == ledger_refund_views(
                    bids_map@.take(i as int),
                ),
            decreases n - i,
        {
            let bucket = &bids_map[i].1;
            let m = bucket.len();
            let mut j: usize = 0;
            while j < m
                invariant
                    0 <= j <= m,
                    0 <= i < n,
                    n == bids_map@.len(),
                    m == bids_map@[i as int].1@.len(),
                    out@.map_values(|t: FundTransfer| transfer_view(t)) == ledger_refund_views(
                        bids_map@.take(i as int),
                    ) + bucket_refund_views(
                        bids_map@[i as int].0@,
                        bids_map@[i as int].1@.take(j as int),
                    ),
                decreases m - j,
            {
                let b = &bids_map[i].1[j];
                let tr = FundTransfer {
                    ft_token_id: bids_map[i].0.clone(),
                    receiver_id: b.owner_id.clone(),
                    amount: b.price,
                };
                let ghost tr0 = tr;
                let ghost out0 = out@;
                out.push(tr);
                proof {
                    let ft = bids_map@[i as int].0@;
                    let bs = bids_map@[i as int].1@;
                    let f = |t: FundTransfer| transfer_view(t);
                    assert(out@ == out0.push(tr0));
                    assert(out@.map_values(f) =~= out0.map_values(f).push(f(tr0)));
                    assert(f(tr0) == bid_refund_view(ft, bs[j as int]));
                    assert(bucket_refund_views(ft, bs.take(j + 1)) =~= bucket_refund_views(
                        ft,
                        bs.take(j as int),
                    ).push(bid_refund_view(ft, bs[j as int])));
                    assert(out@.map_values(f) =~= ledger_refund_views(bids_map@.take(i as int))
                        + bucket_refund_views(ft, bs.take(j + 1)));
                }
                j = j + 1;
            }
            proof {
                let pfx = bids_map@.take(i + 1);
                assert(pfx.drop_last() =~= bids_map@.take(i as int));
                assert(pfx.last() == bids_map@[i as int]);
                assert(bids_map@[i as int].1@.take(m as int) =~= bids_map@[i as int].1@);
                assert(out@.map_values(|t: FundTransfer| transfer_view(t)) =~= ledger_refund_views(
                    pfx,
                ));
            }
            i = i + 1;
        }
        proof {
            assert(bids_map@.take(n as int) =~= bids_map@);
        }
        out
    }

    /// Submits a bid on a sale: the attached gross `amount`, in currency
    /// `ft_token_id`, with the bidder's fee-share set. The bid is appended to
    /// the currency's bucket, which must grow strictly in fee-exclusive
    /// actual amount; when the bucket would exceed the history cap, the
    /// oldest bid is evicted and its refund instruction returned.
    ///
    /// Rejected, changing nothing: unsupported currency; fee-share total at
    /// or over the cap (or overflowing); arithmetic that cannot fit;
    /// unknown listing; an actual amount not above the current best bid.
    #[verifier::rlimit(50)]
    pub fn add_bid(
        &mut self,
        contract_and_token_id: crate::common::ContractAndTokenId,
        amount: u128,
        ft_token_id: AccountId,
        buyer_id: AccountId,
        start: u64,
        end: Option<u64>,
        origins: Option<Origins>,
    ) -> (r: Result<Option<FundTransfer>, MarketError>)
        requires
            crate::market_wf(*old(self)),
        ensures
            crate::market_wf(*final(self)),
            ({
                let k = contract_and_token_id@;
                let sm = old(self).market.sales_map();
                let t = sum_weights(spec_opt_origins(origins));
                let cap = old(self).market.bid_history_length as int;
                match r {
                    Ok(refund) => bid_added_post(
                        *old(self),
                        *final(self),
                        k,
                        ft_token_id@,
                        amount,
                        buyer_id,
                        start,
                        end,
                        origins,
                        refund,
                    ),
                    Err(e) => {
                        let supported = old(self).market.supports_ft(ft_token_id@);
                        &&& *final(self) == *old(self)
                        &&& (e == MarketError::NotSupportedFt <==> !supported)
                        &&& (e == MarketError::Overflow <==> supported && (t > u32::MAX || (t
                            < ORIGINS_CAP as int && (amount as int) * (t + PROTOCOL_FEE as int)
                            > u128::MAX as int)))
                        &&& (e == MarketError::MaxOriginsExceeded <==> supported && ORIGINS_CAP as int
                            <= t <= u32::MAX)
                        &&& (e == MarketError::NoSale <==> supported && 0 <= t < ORIGINS_CAP as int
                            && (amount as int) * (t + PROTOCOL_FEE as int) <= u128::MAX as int
                            && !sm.dom().contains(k))
                        &&& (e == MarketError::BidTooLow <==> supported && 0 <= t < ORIGINS_CAP as int
                            && (amount as int) * (t + PROTOCOL_FEE as int) <= u128::MAX as int
                            && sm.dom().contains(k) && s_has(sm[k].bids@, ft_token_id@)
                            && spec_actual_amount(amount as int, t) <= spec_bid_actual(
                            s_at(sm[k].bids@, ft_token_id@)@.last(),
                        ))
                        &&& (e == MarketError::NotSupportedFt || e == MarketError::Overflow || e
                            == MarketError::MaxOriginsExceeded || e == MarketError::NoSale || e
                            == MarketError::BidTooLow)
                    },
                }
            }),
    {
        let ghost pre = *self;
        if !crate::table::set_contains(&self.market.ft_token_ids, &ft_token_id) {
            return Err(MarketError::NotSupportedFt);
        }
        let total_origins: u32 = match &origins {
            Some(o) => match calculate_origins(o) {
                Ok(t) => t,
                Err(e) => {
                    return Err(e);
                },
            },
            None => 0,
        };
        if total_origins >= ORIGINS_CAP {
            return Err(MarketError::MaxOriginsExceeded);
        }
        if amount.checked_mul((total_origins as u128) + PROTOCOL_FEE).is_none() {
            return Err(MarketError::Overflow);
        }
        let actual_amount = calculate_actual_amount(amount, total_origins);
        let i = match s_find(&self.market.sales, &contract_and_token_id) {
            Some(i) => i,
            None => {
                return Err(MarketError::NoSale);
            },
        };
        proof {
            lemma_s_at_index(self.market.sales@, i as int);
        }
        let ghost k = contract_and_token_id@;
        let ghost presales = self.market.sales@;
        let ghost sale0 = presales[i as int].1;
        let j_opt = s_find(&self.market.sales[i].1.bids, &ft_token_id);
        if let Some(j) = j_opt {
            proof {
                lemma_s_at_index(sale0.bids@, j as int);
            }
            let bucket_ref = &self.market.sales[i].1.bids[j].1;
            let last_ref = &bucket_ref[bucket_ref.len() - 1];
            let current_origins = match calculate_origins(&last_ref.origins) {
                Ok(t) => t,
                Err(_) => {
                    proof {
                        crate::fee::lemma_sum_weights_nonneg(last_ref.origins@);
                        assert(false);
                    }
                    return Err(MarketError::Overflow);
                },
            };
            let current_amount = calculate_actual_amount(last_ref.price, current_origins);
            if actual_amount <= current_amount {
                return Err(MarketError::BidTooLow);
            }
        }
        let new_bid = Bid {
            owner_id: buyer_id,
            price: amount,
            start,
            end,
            origins: match origins {
                Some(o) => o,
                None => Vec::new(),
            },
        };
        proof {
            lemma_s_swap_remove(presales, i as int);
        }
        let (kstr, mut sale) = self.market.sales.swap_remove(i);
        let ghost prebids = sale.bids@;
        let mut refund: Option<FundTransfer> = None;
        let ghost bucket0: Seq<Bid> = if s_has(sale0.bids@, ft_token_id@) {
            s_at(sale0.bids@, ft_token_id@)@
        } else {
            Seq::<Bid>::empty()
        };
        proof {
            if bucket0.len() > 0 {
                assert forall|p: int| 0 <= p < bucket0.len() implies spec_bid_actual(
                    #[trigger] bucket0[p],
                ) < spec_bid_actual(new_bid) by {
                    if p < bucket0.len() - 1 {
                        assert(spec_bid_actual(bucket0[p]) < spec_bid_actual(bucket0.last()));
                    }
                }
            }
        }
        if let Some(j) = j_opt {
            proof {
                lemma_s_swap_remove(prebids, j as int);
            }
            let (ftstr, mut bucket) = sale.bids.swap_remove(j);
            bucket.push(new_bid);
            if bucket.len() > (self.market.bid_history_length as usize) {
                let ghost pushed = bucket@;
                proof {
                    crate::bid::lemma_bucket_remove(pushed, 0);
                }
                let evicted = bucket.remove(0);
                refund = Some(
                    FundTransfer {
                        ft_token_id,
                        receiver_id: evicted.owner_id,
                        amount: evicted.price,
                    },
                );
            }
            proof {
                crate::table::lemma_s_push(sale.bids@, (ftstr, bucket));
            }
            sale.bids.push((ftstr, bucket));
        } else {
            let mut bucket: Vec<Bid> = Vec::new();
            bucket.push(new_bid);
            proof {
                crate::table::lemma_s_push(sale.bids@, (ft_token_id, bucket));
            }
            sale.bids.push((ft_token_id, bucket));
        }
        proof {
            crate::table::lemma_s_push(self.market.sales@, (kstr, sale));
        }
        self.market.sales.push((kstr, sale));
        proof {
            let news = self.market.sales@;
            assert forall|x: int| #![trigger news[x]] 0 <= x < news.len() implies ((news[x].0@ == k
                && news[x].1 == sale) || (exists|y: int|
                0 <= y < presales.len() && news[x] == #[trigger] presales[y])) by {
                if x < news.len() - 1 {
                    let n = presales.len() as int;
                    let sa = if x == i {
                        n - 1
                    } else {
                        x
                    };
                    assert(news[x] == presales[sa]);
                }
            }
            let cap = self.market.bid_history_length as int;
            assert(crate::sale::sale_wf(sale, cap)) by {
                assert(skeys_distinct(sale.bids@));
                assert forall|x: int|
                    0 <= x < sale.bids@.len() implies bucket_wf(
                    (#[trigger] sale.bids@[x]).1@,
                    cap,
                ) by {
                    if x < sale.bids@.len() - 1 {
                        let n = prebids.len() as int;
                        if j_opt is Some {
                            let j = j_opt->0 as int;
                            let sa = if x == j {
                                n - 1
                            } else {
                                x
                            };
                            assert(sale.bids@[x] == prebids[sa]);
                        } else {
                            assert(sale.bids@[x] == prebids[x]);
                        }
                    } else {
                        // The rebuilt bucket.
                        let b1 = sale.bids@[x].1@;
                        assert(b1.last() == new_bid);
                        if bucket0.len() >= cap {
                            assert(b1 =~= bucket0.push(new_bid).remove(0));
                        } else if bucket0.len() > 0 {
                            assert(b1 =~= bucket0.push(new_bid));
                        } else {
                            assert(b1.len() == 1);
                        }
                        assert(bids_increasing(b1)) by {
                            if bucket0.len() >= cap {
                                let pushed = bucket0.push(new_bid);
                                assert(bids_increasing(pushed));
                                crate::bid::lemma_bucket_remove(pushed, 0);
                            } else if bucket0.len() > 0 {
                                assert(bids_increasing(bucket0.push(new_bid)));
                            }
                        }
                    }
                }
            }
            assert(self.market.sales_map() == pre.market.sales_map().insert(k, sale));
            crate::inner::lemma_wf_after_sale_update(pre, *self, k, sale);
            assert(s_at(news, k) == sale) by {
                lemma_s_at_index(news, news.len() - 1);
            }
            assert(self.market.sales_map().dom() =~= pre.market.sales_map().dom());
            let bids1 = sale.bids@;
            assert(s_has(bids1, ft_token_id@)) by {
                lemma_s_at_index(bids1, bids1.len() - 1);
            }
            assert(s_at(bids1, ft_token_id@) == bids1.last().1) by {
                lemma_s_at_index(bids1, bids1.len() - 1);
            }
            assert forall|ft2: Seq<char>| ft2 != ft_token_id@ implies s_has(bids1, ft2) == s_has(
                sale0.bids@,
                ft2,
            ) by {
                assert(s_map(bids1).dom().contains(ft2) == s_map(sale0.bids@).dom().contains(ft2));
            }
            assert forall|ft2: Seq<char>| ft2 != ft_token_id@ && s_has(sale0.bids@, ft2) implies s_at(
                bids1,
                ft2,
            ) == s_at(sale0.bids@, ft2) by {
                assert(s_map(bids1)[ft2] == s_map(sale0.bids@)[ft2]);
            }
            let bucket1v = s_at(bids1, ft_token_id@)@;
            assert(bucket1v == bids1.last().1@);
            if bucket0.len() < cap {
                assert(bucket1v =~= bucket0.push(new_bid));
                assert(bucket1v.drop_last() =~= bucket0);
                assert(bucket1v.last() == new_bid);
            } else {
                assert(bucket1v =~= bucket0.push(new_bid).remove(0));
                assert(bucket1v.drop_last() =~= bucket0.drop_first());
                assert(bucket1v.len() == cap);
                assert(bucket1v.last() == new_bid);
            }
        }
        Ok(refund)
    }

    /// Withdraws the caller's own bid, identified by currency and gross
    /// price, and returns its refund instruction. One yocto unit must be
    /// attached.
    pub fn remove_bid(
        &mut self,
        nft_contract_id: AccountId,
        token_id: crate::common::TokenId,
        ft_token_id: AccountId,
        price: u128,
        predecessor: AccountId,
        deposit: u128,
    ) -> (r: Result<FundTransfer, MarketError>)
        requires
            crate::market_wf(*old(self)),
        ensures
            crate::market_wf(*final(self)),
            crate::inner::same_but_sales(*final(self), *old(self)),
            ({
                let k = crate::common::sale_key_view(nft_contract_id@, token_id@);
                match r {
                    Ok(tr) => {
                        &&& deposit == 1
                        &&& (exists|b: Bid|
                            crate::inner::bid_removed_post(
                                *old(self),
                                *final(self),
                                k,
                                ft_token_id@,
                                predecessor@,
                                price,
                                b,
                            ))
                        &&& tr.ft_token_id == ft_token_id
                        &&& tr.receiver_id == predecessor
                        &&& tr.amount == price
                    },
                    Err(e) => {
                        &&& *final(self) == *old(self)
                        &&& (deposit != 1 ==> e == MarketError::NotOneYocto)
                        &&& (deposit == 1 ==> e != MarketError::NotOneYocto
                            && crate::inner::bid_remove_err(
                            *old(self),
                            k,
                            ft_token_id@,
                            predecessor@,
                            price,
                            e,
                        ))
                    },
                }
            }),
    {
        if deposit != 1 {
            return Err(MarketError::NotOneYocto);
        }
        match self.internal_remove_bid(
            nft_contract_id,
            &ft_token_id,
            token_id,
            &predecessor,
            price,
        ) {
            Ok(_) => Ok(crate::Market::refund_bid(ft_token_id, predecessor, price)),
            Err(e) => Err(e),
        }
    }

    /// Cancels someone's bid once its validity window has ended, refunding
    /// it. The bid must carry an end, and that end must have passed.
    pub fn cancel_bid(
        &mut self,
        nft_contract_id: AccountId,
        token_id: crate::common::TokenId,
        ft_token_id: AccountId,
        owner_id: AccountId,
        price: u128,
        now: u64,
    ) -> (r: Result<FundTransfer, MarketError>)
        requires
            crate::market_wf(*old(self)),
        ensures
            crate::market_wf(*final(self)),
            crate::inner::same_but_sales(*final(self), *old(self)),
            ({
                let k = crate::common::sale_key_view(nft_contract_id@, token_id@);
                let sm = old(self).market.sales_map();
                match r {
                    Ok(tr) => {
                        &&& (exists|b: Bid|
                            #![auto]
                            crate::inner::bid_removed_post(
                                *old(self),
                                *final(self),
                                k,
                                ft_token_id@,
                                owner_id@,
                                price,
                                b,
                            ) && b.end is Some && now >= b.end->0)
                        &&& tr.ft_token_id == ft_token_id
                        &&& tr.receiver_id == owner_id
                        &&& tr.amount == price
                    },
                    Err(e) => {
                        &&& *final(self) == *old(self)
                        &&& (e == MarketError::NoSale || e == MarketError::NoBids || e
                            == MarketError::NoSuchBid ==> crate::inner::bid_remove_err(
                            *old(self),
                            k,
                            ft_token_id@,
                            owner_id@,
                            price,
                            e,
                        ))
                        &&& (e == MarketError::BidHasNoEnd || e == MarketError::BidNotEnded ==> (
                        exists|idx: int|
                            #![trigger s_at(sm[k].bids@, ft_token_id@)@[idx]]
                            {
                                let bucket = s_at(sm[k].bids@, ft_token_id@)@;
                                &&& sm.dom().contains(k)
                                &&& s_has(sm[k].bids@, ft_token_id@)
                                &&& 0 <= idx < bucket.len()
                                &&& bid_matches(bucket[idx], owner_id@, price)
                                &&& forall|j: int|
                                    0 <= j < idx ==> !bid_matches(bucket[j], owner_id@, price)
                                &&& (e == MarketError::BidHasNoEnd ==> bucket[idx].end is None)
                                &&& (e == MarketError::BidNotEnded ==> bucket[idx].end is Some
                                    && now < bucket[idx].end->0)
                            }))
                        &&& (e == MarketError::NoSale || e == MarketError::NoBids || e
                            == MarketError::NoSuchBid || e == MarketError::BidHasNoEnd || e
                            == MarketError::BidNotEnded)
                    },
                }
            }),
    {
        let key = crate::common::compose_sale_key(&nft_contract_id, &token_id);
        let i = match s_find(&self.market.sales, &key) {
            Some(i) => i,
            None => {
                return Err(MarketError::NoSale);
            },
        };
        proof {
            lemma_s_at_index(self.market.sales@, i as int);
        }
        let j = match s_find(&self.market.sales[i].1.bids, &ft_token_id) {
            Some(j) => j,
            None => {
                return Err(MarketError::NoBids);
            },
        };
        proof {
            lemma_s_at_index(self.market.sales@[i as int].1.bids@, j as int);
        }
        let idx = match find_first_match(&self.market.sales[i].1.bids[j].1, &owner_id, price) {
            Some(idx) => idx,
            None => {
                return Err(MarketError::NoSuchBid);
            },
        };
        let end = match self.market.sales[i].1.bids[j].1[idx].end {
            Some(e) => e,
            None => {
                return Err(MarketError::BidHasNoEnd);
            },
        };
        if now < end {
            return Err(MarketError::BidNotEnded);
        }
        match self.internal_remove_bid(nft_contract_id, &ft_token_id, token_id, &owner_id, price) {
            Ok(b) => {
                proof {
                    assert(b.end is Some && now >= b.end->0) by {
                        let k = key@;
                        let sm = old(self).market.sales_map();
                        let bucket = s_at(sm[k].bids@, ft_token_id@)@;
                        let widx = choose|widx: int|
                            {
                                &&& 0 <= widx < bucket.len()
                                &&& bid_matches(#[trigger] bucket[widx], owner_id@, price)
                                &&& b == bucket[widx]
                                &&& forall|t: int|
                                    0 <= t < widx ==> !bid_matches(
                                        #[trigger] bucket[t],
                                        owner_id@,
                                        price,
                                    )
                            };
                        if widx < idx {
                            assert(!bid_matches(bucket[widx], owner_id@, price));
                        }
                        if widx > idx {
                            assert(!bid_matches(bucket[idx as int], owner_id@, price));
                        }
                        assert(widx == idx);
                    }
                }
                Ok(crate::Market::refund_bid(ft_token_id, owner_id, price))
            },
            Err(e) => {
                proof {
                    assert(false);
                }
                Err(e)
            },
        }
    }

    /// Cancels and refunds every expired bid of the sale in the given
    /// currency; the bucket is dropped when nothing valid remains.
    pub fn cancel_expired_bids(
        &mut self,
        nft_contract_id: AccountId,
        token_id: crate::common::TokenId,
        ft_token_id: AccountId,
        now: u64,
    ) -> (r: Result<Vec<FundTransfer>, MarketError>)
        requires
            crate::market_wf(*old(self)),
        ensures
            crate::market_wf(*final(self)),
            crate::inner::same_but_sales(*final(self), *old(self)),
            ({
                let k = crate::common::sale_key_view(nft_contract_id@, token_id@);
                let sm = old(self).market.sales_map();
                match r {
                    Ok(refunds) => {
                        &&& sm.dom().contains(k)
                        &&& s_has(sm[k].bids@, ft_token_id@)
                        &&& final(self).market.sales_map().dom() == sm.dom()
                        &&& forall|m: Seq<char>|
                            sm.dom().contains(m) && m != k ==> final(self).market.sales_map()[m]
                                == sm[m]
                        &&& ({
                            let sale0 = sm[k];
                            let sale1 = final(self).market.sales_map()[k];
                            let bucket0 = s_at(sale0.bids@, ft_token_id@)@;
                            let kept = keep_unexpired(bucket0, now);
                            &&& crate::inner::same_sale_except_bids(sale1, sale0)
                            &&& refunds@.map_values(|t: FundTransfer| transfer_view(t))
                                == expired_refund_views(ft_token_id@, bucket0, now)
                            &&& if kept.len() == 0 {
                                !s_has(sale1.bids@, ft_token_id@)
                            } else {
                                s_has(sale1.bids@, ft_token_id@) && s_at(
                                    sale1.bids@,
                                    ft_token_id@,
                                )@ == kept
                            }
                            &&& forall|ft2: Seq<char>|
                                ft2 != ft_token_id@ ==> s_has(sale1.bids@, ft2) == s_has(
                                    sale0.bids@,
                                    ft2,
                                )
                            &&& forall|ft2: Seq<char>|
                                ft2 != ft_token_id@ && s_has(sale0.bids@, ft2) ==> s_at(
                                    sale1.bids@,
                                    ft2,
                                ) == s_at(sale0.bids@, ft2)
                        })
                    },
                    Err(e) => {
                        &&& *final(self) == *old(self)
                        &&& (e == MarketError::NoSale <==> !sm.dom().contains(k))
                        &&& (e == MarketError::NoBids <==> sm.dom().contains(k) && !s_has(
                            sm[k].bids@,
                            ft_token_id@,
                        ))
                        &&& (e == MarketError::NoSale || e == MarketError::NoBids)
                    },
                }
            }),
    {
        let ghost pre = *self;
        let key = crate::common::compose_sale_key(&nft_contract_id, &token_id);
        let i = match s_find(&self.market.sales, &key) {
            Some(i) => i,
            None => {
                return Err(MarketError::NoSale);
            },
        };
        proof {
            lemma_s_at_index(self.market.sales@, i as int);
        }
        let j = match s_find(&self.market.sales[i].1.bids, &ft_token_id) {
            Some(j) => j,
            None => {
                return Err(MarketError::NoBids);
            },
        };
        let ghost k = key@;
        let ghost presales = self.market.sales@;
        let ghost sale0 = presales[i as int].1;
        let ghost bucket0 = sale0.bids@[j as int].1@;
        proof {
            lemma_s_at_index(sale0.bids@, j as int);
            lemma_s_swap_remove(presales, i as int);
        }
        let (kstr, mut sale) = self.market.sales.swap_remove(i);
        proof {
            lemma_s_swap_remove(sale.bids@, j as int);
        }
        let (ftstr, mut bucket) = sale.bids.swap_remove(j);
        let mut kept: Vec<Bid> = Vec::new();
        let mut refunds: Vec<FundTransfer> = Vec::new();
        let mut t: usize = 0;
        let ghost nb = bucket0.len();
        let n0 = bucket.len();
        proof {
            assert(bucket0.take(0) =~= Seq::<Bid>::empty());
            assert(nb == n0);
        }
        while bucket.len() > 0
            invariant
                t == nb - bucket@.len(),
                0 <= t <= nb,
                nb <= usize::MAX,
                nb == bucket0.len(),
                bucket@ =~= bucket0.subrange(t as int, nb as int),
                ftstr@ == ft_token_id@,
                kept@ == keep_unexpired(bucket0.take(t as int), now),
                refunds@.map_values(|x: FundTransfer| transfer_view(x)) == expired_refund_views(
                    ft_token_id@,
                    bucket0.take(t as int),
                    now,
                ),
            decreases bucket@.len(),
        {
            let b = bucket.remove(0);
            proof {
                assert(b == bucket0[t as int]);
                assert(bucket0.take(t + 1).drop_last() =~= bucket0.take(t as int));
                assert(bucket0.take(t + 1).last() == bucket0[t as int]);
                assert(bucket@ =~= bucket0.subrange(t + 1, nb as int));
            }
            let expired = match b.end {
                Some(e) => now >= e,
                None => false,
            };
            if expired {
                let tr = FundTransfer {
                    ft_token_id: ft_token_id.clone(),
                    receiver_id: b.owner_id,
                    amount: b.price,
                };
                let ghost tr0 = tr;
                let ghost pref = refunds@;
                refunds.push(tr);
                proof {
                    let f = |x: FundTransfer| transfer_view(x);
                    assert(refunds@ == pref.push(tr0));
                    assert(refunds@.map_values(f) =~= pref.map_values(f).push(f(tr0)));
                }
            } else {
                kept.push(b);
            }
            t = t + 1;
        }
        proof {
            assert(bucket0.take(nb as int) =~= bucket0);
        }
        if kept.len() > 0 {
            proof {
                crate::table::lemma_s_push(sale.bids@, (ftstr, kept));
            }
            sale.bids.push((ftstr, kept));
        }
        proof {
            crate::table::lemma_s_push(self.market.sales@, (kstr, sale));
        }
        self.market.sales.push((kstr, sale));
        proof {
            let news = self.market.sales@;
            assert forall|x: int| #![trigger news[x]] 0 <= x < news.len() implies ((news[x].0@ == k
                && news[x].1 == sale) || (exists|y: int|
                0 <= y < presales.len() && news[x] == #[trigger] presales[y])) by {
                if x < news.len() - 1 {
                    let n = presales.len() as int;
                    let sa = if x == i {
                        n - 1
                    } else {
                        x
                    };
                    assert(news[x] == presales[sa]);
                }
            }
            let cap = self.market.bid_history_length as int;
            lemma_keep_unexpired_props(bucket0, now);
            assert(crate::sale::sale_wf(sale, cap)) by {
                let prebids = sale0.bids@;
                assert(skeys_distinct(sale.bids@));
                assert forall|x: int|
                    0 <= x < sale.bids@.len() implies bucket_wf(
                    (#[trigger] sale.bids@[x]).1@,
                    cap,
                ) by {
                    if x < sale.bids@.len() - 1 || keep_unexpired(bucket0, now).len() == 0 {
                        let n = prebids.len() as int;
                        let sa = if x == j as int {
                            n - 1
                        } else {
                            x
                        };
                        assert(sale.bids@[x] == prebids[sa]);
                    } else {
                        assert(sale.bids@[x].1@ == keep_unexpired(bucket0, now));
                        assert(bucket_wf(bucket0, cap));
                    }
                }
            }
            assert(self.market.sales_map() == pre.market.sales_map().insert(k, sale));
            crate::inner::lemma_wf_after_sale_update(pre, *self, k, sale);
            assert(s_at(news, k) == sale) by {
                lemma_s_at_index(news, news.len() - 1);
            }
            assert(self.market.sales_map().dom() =~= pre.market.sales_map().dom());
            let bids1 = sale.bids@;
            assert forall|ft2: Seq<char>| ft2 != ft_token_id@ implies s_has(bids1, ft2) == s_has(
                sale0.bids@,
                ft2,
            ) by {
                assert(s_map(bids1).dom().contains(ft2) == s_map(sale0.bids@).dom().contains(ft2));
            }
            assert forall|ft2: Seq<char>| ft2 != ft_token_id@ && s_has(sale0.bids@, ft2) implies s_at(
                bids1,
                ft2,
            ) == s_at(sale0.bids@, ft2) by {
                assert(s_map(bids1)[ft2] == s_map(sale0.bids@)[ft2]);
            }
            if keep_unexpired(bucket0, now).len() == 0 {
                assert(!s_has(bids1, ft_token_id@)) by {
                    assert(!s_map(bids1).dom().contains(ft_token_id@));
                }
            } else {
                assert(s_has(bids1, ft_token_id@) && s_at(bids1, ft_token_id@)@ == keep_unexpired(
                    bucket0,
                    now,
                )) by {
                    lemma_s_at_index(bids1, bids1.len() - 1);
                }
            }
        }
        Ok(refunds)
    }
}

} // verus!
