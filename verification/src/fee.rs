//! Fee arithmetic: weighted beneficiary shares ("origins"), the protocol fee,
//! and the two directions of fee-inclusive pricing.
//!
//! `calculate_price_with_fees` turns a seller-side net price into the gross
//! amount a buyer must attach; `calculate_actual_amount` strips the fees off a
//! gross amount again. `lemma_fee_round_trip` proves that the two compose to
//! the identity, within the one-unit rounding tolerance the interface allows.
use vstd::prelude::*;

use crate::common::{AccountId, MarketError, Origins};

verus! {

/// Weight denominator: 10,000 weight units are 100% of a price.
pub const PAYOUT_TOTAL_VALUE: u128 = 10_000;

/// Marketplace operator's cut of every settlement: 300 / 10,000 = 3%.
pub const PROTOCOL_FEE: u128 = 300;

/// A fee-share set's total weight must stay under this cap, leaving room for
/// the protocol fee and royalties inside the denominator.
pub const ORIGINS_CAP: u32 = 4_700;

/// Buyer-side and seller-side fee-share sets handed to the token contract
/// during settlement, each already containing the protocol-fee entry.
#[derive(Debug)]
pub struct Fees {
    pub buyer: Vec<(AccountId, u32)>,
    pub seller: Vec<(AccountId, u32)>,
}

/// Sum of the weights of a fee-share set.
pub open spec fn sum_weights(s: Seq<(AccountId, u32)>) -> int
    decreases s.len(),
{
    if s.len() == 0 {
        0
    } else {
        sum_weights(s.drop_last()) + s.last().1
    }
}

/// Total weight of an optional fee-share set; absent means no shares.
pub open spec fn spec_origins_total(origins: Option<Seq<(AccountId, u32)>>) -> int {
    match origins {
        Some(s) => sum_weights(s),
        None => 0,
    }
}

/// Seller-side net left of `amount` after the protocol fee and a fee-share
/// total of `total` are stripped.
pub open spec fn spec_actual_amount(amount: int, total: int) -> int {
    amount - (amount * (total + PROTOCOL_FEE as int)) / (PAYOUT_TOTAL_VALUE as int + total
        + PROTOCOL_FEE as int)
}

/// Buyer-side gross owed for a seller-side net `price` under a fee-share
/// total of `total`.
pub open spec fn spec_price_with_fees(price: int, total: int) -> int {
    (price * (PAYOUT_TOTAL_VALUE as int + PROTOCOL_FEE as int + total)) / (
    PAYOUT_TOTAL_VALUE as int)
}

/// The weights of a prefix sum to the prefix's `sum_weights`.
proof fn lemma_sum_weights_take(s: Seq<(AccountId, u32)>, i: int)
    requires
        0 <= i < s.len(),
    ensures
        sum_weights(s.take(i + 1)) == sum_weights(s.take(i)) + s[i].1,
{
    assert(s.take(i + 1).drop_last() =~= s.take(i));
    assert(s.take(i + 1).last() == s[i]);
}

/// A sum of non-negative weights is non-negative.
pub proof fn lemma_sum_weights_nonneg(s: Seq<(AccountId, u32)>)
    ensures
        sum_weights(s) >= 0,
    decreases s.len(),
{
    if s.len() > 0 {
        lemma_sum_weights_nonneg(s.drop_last());
    }
}

/// Total weight of a fee-share set.
///
/// Returns the sum of all weights, or `Overflow` exactly when that sum does
/// not fit the weight type.
pub fn calculate_origins(origins: &Origins) -> (r: Result<u32, MarketError>)
    ensures
        match r {
            Ok(t) => t as int == sum_weights(origins@),
            Err(e) => e == MarketError::Overflow && sum_weights(origins@) > u32::MAX,
        },
{
    let mut total: u128 = 0;
    let n = origins.len();
    let mut i: usize = 0;
    proof {
        assert(origins@.take(0) =~= Seq::<(AccountId, u32)>::empty());
    }
    while i < n
        invariant
            0 <= i <= n,
            n == origins@.len(),
            total == sum_weights(origins@.take(i as int)),
            total <= (i as int) * 0x1_0000_0000,
        decreases n - i,
    {
        let w = origins[i].1;
        proof {
            lemma_sum_weights_take(origins@, i as int);
            assert((i as int) * 0x1_0000_0000 + 0x1_0000_0000 == (i as int + 1)
                * 0x1_0000_0000) by (nonlinear_arith);
            assert((i as int + 1) * 0x1_0000_0000 <= 0x1_0000_0000_0000_0000
                * 0x1_0000_0000) by (nonlinear_arith)
                requires
                    i as int + 1 <= 0x1_0000_0000_0000_0000,
            ;
        }
        total = total + (w as u128);
        i = i + 1;
    }
    proof {
        assert(origins@.take(n as int) =~= origins@);
    }
    if total > (u32::MAX as u128) {
        Err(MarketError::Overflow)
    } else {
        Ok(total as u32)
    }
}

/// Strips the protocol fee and a fee-share total of `total_origins` off the
/// gross `amount`, returning the seller-side net.
pub fn calculate_actual_amount(amount: u128, total_origins: u32) -> (r: u128)
    requires
        (amount as int) * (total_origins as int + PROTOCOL_FEE as int) <= u128::MAX as int,
    ensures
        r == spec_actual_amount(amount as int, total_origins as int),
{
    let t = total_origins as u128;
    let origin_fee = amount * (t + PROTOCOL_FEE) / (PAYOUT_TOTAL_VALUE + t + PROTOCOL_FEE);
    proof {
        let a = amount as int;
        let b = t as int + PROTOCOL_FEE as int;
        let c = PAYOUT_TOTAL_VALUE as int + t as int + PROTOCOL_FEE as int;
        assert(a * b <= c * a) by (nonlinear_arith)
            requires
                a >= 0,
                0 <= b <= c,
        ;
        vstd::arithmetic::div_mod::lemma_multiply_divide_le(a * b, c, a);
    }
    amount - origin_fee
}

/// Buyer-side gross owed for the seller-side net `price` under the optional
/// fee-share set `origins`.
///
/// Fails with `Overflow` exactly when the weight sum or the scaled price does
/// not fit the machine integers.
pub fn calculate_price_with_fees(price: u128, origins: Option<&Origins>) -> (r: Result<
    u128,
    MarketError,
>)
    ensures
        ({
            let t = spec_origins_total(match origins {
                Some(o) => Some(o@),
                None => None,
            });
            match r {
                Ok(v) => t <= u32::MAX && (price as int) * (PAYOUT_TOTAL_VALUE as int
                    + PROTOCOL_FEE as int + t) <= u128::MAX as int && v == spec_price_with_fees(
                    price as int,
                    t,
                ),
                Err(e) => e == MarketError::Overflow && (t > u32::MAX || (price as int) * (
                PAYOUT_TOTAL_VALUE as int + PROTOCOL_FEE as int + t) > u128::MAX as int),
            }
        }),
{
    let total_origins: u32 = match origins {
        Some(o) => match calculate_origins(o) {
            Ok(t) => t,
            Err(e) => {
                return Err(e);
            },
        },
        None => 0,
    };
    let mult = PAYOUT_TOTAL_VALUE + PROTOCOL_FEE + (total_origins as u128);
    match price.checked_mul(mult) {
        Some(scaled) => Ok(scaled / PAYOUT_TOTAL_VALUE),
        None => Err(MarketError::Overflow),
    }
}

impl crate::Market {
    /// The fee-inclusive gross a buyer must attach for the net `price`
    /// under the given fee-share set.
    pub fn price_with_fees(&self, price: u128, origins: Option<Origins>) -> (r: Result<
        u128,
        MarketError,
    >)
        ensures
            ({
                let t = spec_origins_total(match origins {
                    Some(o) => Some(o@),
                    None => None,
                });
                match r {
                    Ok(v) => t <= u32::MAX && (price as int) * (PAYOUT_TOTAL_VALUE as int
                        + PROTOCOL_FEE as int + t) <= u128::MAX as int && v == spec_price_with_fees(
                        price as int,
                        t,
                    ),
                    Err(e) => e == MarketError::Overflow && (t > u32::MAX || (price as int) * (
                    PAYOUT_TOTAL_VALUE as int + PROTOCOL_FEE as int + t) > u128::MAX as int),
                }
            }),
    {
        calculate_price_with_fees(price, origins.as_ref())
    }
}

/// Round-trip law of the two fee directions: for any net price and any
/// fee-share total under the cap, quoting the gross with
/// `spec_price_with_fees` and stripping the fees again with
/// `spec_actual_amount` gives back the net price, or at most one unit less.
/// (The proof shows the net price comes back exactly.)
pub proof fn lemma_fee_round_trip(p: int, w: int)
    requires
        0 <= p,
        0 <= w < ORIGINS_CAP,
    ensures
        spec_actual_amount(spec_price_with_fees(p, w), w) == p || spec_actual_amount(
            spec_price_with_fees(p, w),
            w,
        ) == p - 1,
        spec_actual_amount(spec_price_with_fees(p, w), w) == p,
{
    let d = PAYOUT_TOTAL_VALUE as int;
    let f = w + PROTOCOL_FEE as int;
    let g = (p * (d + f)) / d;
    let r1 = (p * (d + f)) % d;
    vstd::arithmetic::div_mod::lemma_fundamental_div_mod(p * (d + f), d);
    vstd::arithmetic::div_mod::lemma_mod_division_less_than_divisor(p * (d + f), d);
    vstd::arithmetic::div_mod::lemma_div_pos_is_pos(p * (d + f), d);
    assert(p * (d + f) >= 0) by (nonlinear_arith)
        requires
            p >= 0,
            d + f >= 0,
    ;
    assert(g * f == (g - p) * (d + f) + r1) by (nonlinear_arith)
        requires
            p * (d + f) == d * g + r1,
    ;
    assert(g - p >= 0) by (nonlinear_arith)
        requires
            p * (d + f) == d * g + r1,
            0 <= r1 < d,
            p >= 0,
            d > 0,
            f >= 0,
    ;
    vstd::arithmetic::div_mod::lemma_fundamental_div_mod_converse(g * f, d + f, g - p, r1);
    assert((g * f) / (d + f) == g - p);
}

} // verus!
