//! Money and prices. Integer arithmetic only.
use vstd::prelude::*;
use std::ops::{Add, Sub};
use vstd::std_specs::ops::{AddSpecImpl, SubSpecImpl};
use vstd::string::*;
use crate::text;

verus! {

/// Minor units of one currency (cents, say). Never negative.
///
/// `+` and `-` ask for a result that fits; the `checked_*` forms are for callers to whom a
/// result that does not fit is an ordinary case.
#[derive(Debug, Clone, Copy, PartialEq, Eq, Structural, PartialOrd, Ord, Hash)]
pub struct Amount(pub u64);

/// What a sequence of amounts adds up to.
pub open spec fn amounts_total(amounts: Seq<Amount>) -> int
    decreases amounts.len(),
{
    if amounts.len() == 0 {
        0
    } else {
        amounts_total(amounts.drop_last()) + amounts.last().0
    }
}

proof fn lemma_amounts_total_prefix(amounts: Seq<Amount>, k: int)
    requires
        0 <= k <= amounts.len(),
    ensures
        0 <= amounts_total(amounts.take(k)) <= amounts_total(amounts),
    decreases amounts.len() - k,
{
    if k == amounts.len() {
        assert(amounts.take(k) =~= amounts);
        lemma_amounts_total_nonnegative(amounts);
    } else {
        lemma_amounts_total_prefix(amounts, k + 1);
        assert(amounts.take(k + 1).drop_last() =~= amounts.take(k));
        lemma_amounts_total_nonnegative(amounts.take(k));
    }
}

proof fn lemma_amounts_total_nonnegative(amounts: Seq<Amount>)
    ensures
        0 <= amounts_total(amounts),
    decreases amounts.len(),
{
    if amounts.len() > 0 {
        lemma_amounts_total_nonnegative(amounts.drop_last());
    }
}

impl Amount {
    pub fn zero() -> (a: Amount)
        ensures
            a == Amount(0),
    {
        Amount(0)
    }

    pub fn new(minor_units: u64) -> (a: Amount)
        ensures
            a == Amount(minor_units),
    {
        Amount(minor_units)
    }

    pub fn minor_units(self) -> (units: u64)
        ensures
            units == self.0,
    {
        self.0
    }

    pub fn is_zero(self) -> (b: bool)
        ensures
            b == (self.0 == 0),
    {
        self.0 == 0
    }

    pub fn checked_add(self, rhs: Amount) -> (sum: Option<Amount>)
        ensures
            sum == if self.0 + rhs.0 <= u64::MAX {
                Some(Amount((self.0 + rhs.0) as u64))
            } else {
                None
            },
    {
        match self.0.checked_add(rhs.0) {
            Some(units) => Some(Amount(units)),
            None => None,
        }
    }

    pub fn checked_sub(self, rhs: Amount) -> (difference: Option<Amount>)
        ensures
            difference == if self.0 >= rhs.0 {
                Some(Amount((self.0 - rhs.0) as u64))
            } else {
                None
            },
    {
        match self.0.checked_sub(rhs.0) {
            Some(units) => Some(Amount(units)),
            None => None,
        }
    }

    /// The amount in base ten.
    pub fn text(self) -> (s: String)
        ensures
            s@ == text::decimal(self.0 as nat),
    {
        text::decimal_text(self.0)
    }

    /// Adds up `amounts`.
    pub fn sum(amounts: &[Amount]) -> (total: Amount)
        requires
            amounts_total(amounts@) <= u64::MAX,
        ensures
            total.0 == amounts_total(amounts@),
    {
        let mut total: u64 = 0;
        let mut i: usize = 0;
        while i < amounts.len()
            invariant
                0 <= i <= amounts@.len(),
                total == amounts_total(amounts@.take(i as int)),
                amounts_total(amounts@) <= u64::MAX,
            decreases amounts@.len() - i,
        {
            proof {
                lemma_amounts_total_prefix(amounts@, i + 1);
                assert(amounts@.take(i + 1).drop_last() =~= amounts@.take(i as int));
            }
            total = total + amounts[i].0;
            i = i + 1;
        }
        proof {
            assert(amounts@.take(i as int) =~= amounts@);
        }
        Amount(total)
    }
}

impl Add for Amount {
    type Output = Amount;

    fn add(self, rhs: Amount) -> (sum: Amount) {
        Amount(self.0 + rhs.0)
    }
}

impl AddSpecImpl for Amount {
    open spec fn obeys_add_spec() -> bool {
        true
    }

    open spec fn add_req(self, rhs: Amount) -> bool {
        self.0 + rhs.0 <= u64::MAX
    }

    open spec fn add_spec(self, rhs: Amount) -> Amount {
        Amount((self.0 + rhs.0) as u64)
    }
}

impl Sub for Amount {
    type Output = Amount;

    fn sub(self, rhs: Amount) -> (difference: Amount) {
        Amount(self.0 - rhs.0)
    }
}

impl SubSpecImpl for Amount {
    open spec fn obeys_sub_spec() -> bool {
        true
    }

    open spec fn sub_req(self, rhs: Amount) -> bool {
        self.0 >= rhs.0
    }

    open spec fn sub_spec(self, rhs: Amount) -> Amount {
        Amount((self.0 - rhs.0) as u64)
    }
}

/// Yes price of a binary contract in basis points, `1..=9_999`. A contract at 0% or 100% is not
/// a trade.
#[derive(Debug, Clone, Copy, PartialEq, Eq, Structural, PartialOrd, Ord, Hash)]
pub struct Price(u32);

/// The number of basis points that was offered as a price and is none.
#[derive(Debug, Clone, Copy, PartialEq, Eq, Structural)]
pub struct InvalidPrice {
    pub bps: u32,
}

impl InvalidPrice {
    pub open spec fn spec_message(self) -> Seq<char> {
        "price "@ + text::decimal(self.bps as nat) + " bps is outside 1..=9999"@
    }

    pub fn message(self) -> (s: String)
        ensures
            s@ == self.spec_message(),
    {
        let mut s = "price ".to_owned();
        s.append(text::decimal_text(self.bps as u64).as_str());
        s.append(" bps is outside 1..=9999");
        s
    }
}

impl Price {
    /// Basis points in one whole.
    pub const SCALE: u32 = 10_000;

    pub closed spec fn spec_bps(self) -> int {
        self.0 as int
    }

    #[verifier::type_invariant]
    pub open spec fn in_range(self) -> bool {
        1 <= self.spec_bps() < Self::SCALE
    }

    /// The Yes-buyer's share of `notional`, rounded down.
    pub open spec fn buyer_share(self, notional: Amount) -> Amount {
        Amount((notional.0 * self.spec_bps() / 10_000) as u64)
    }

    /// The rest of `notional`, which is the Yes-seller's.
    pub open spec fn seller_share(self, notional: Amount) -> Amount {
        Amount((notional.0 - self.buyer_share(notional).0) as u64)
    }

    pub fn new(bps: u32) -> (price: Result<Price, InvalidPrice>)
        ensures
            1 <= bps <= 9_999 ==> price is Ok && price->Ok_0.spec_bps() == bps,
            !(1 <= bps <= 9_999) ==> price == Err::<Price, InvalidPrice>(InvalidPrice { bps }),
    {
        if bps < 1 || bps >= Self::SCALE {
            return Err(InvalidPrice { bps });
        }
        Ok(Price(bps))
    }

    pub fn bps(self) -> (bps: u32)
        ensures
            bps == self.spec_bps(),
    {
        self.0
    }

    /// What the Yes-buyer locks: `notional * p / 10_000`, rounded down.
    pub fn yes_buyer_lock(self, notional: Amount) -> (lock: Amount)
        ensures
            lock == self.buyer_share(notional),
            lock.0 == notional.0 * self.spec_bps() / 10_000,
            notional.0 > 0 ==> lock.0 < notional.0,
            lock.0 <= notional.0,
    {
        proof {
            use_type_invariant(&self);
            law_locks_make_the_notional(self, notional);
        }
        assert(notional.0 * self.0 <= u64::MAX * 10_000) by (nonlinear_arith)
            requires
                self.0 <= 10_000,
        ;
        let scaled: u128 = (notional.0 as u128) * (self.0 as u128) / 10_000;
        Amount(scaled as u64)
    }

    /// What the Yes-seller locks: whatever the Yes-buyer leaves of `notional`.
    pub fn yes_seller_lock(self, notional: Amount) -> (lock: Amount)
        ensures
            lock == self.seller_share(notional),
            lock.0 + self.buyer_share(notional).0 == notional.0,
    {
        notional - self.yes_buyer_lock(notional)
    }
}

/// The two sides of a leg lock its notional between them, to the unit; the Yes-buyer never locks
/// all of it.
pub proof fn law_locks_make_the_notional(price: Price, notional: Amount)
    requires
        price.in_range(),
    ensures
        price.buyer_share(notional).0 + price.seller_share(notional).0 == notional.0,
        price.buyer_share(notional).0 == notional.0 * price.spec_bps() / 10_000,
        price.buyer_share(notional).0 <= notional.0,
        notional.0 > 0 ==> price.buyer_share(notional).0 < notional.0,
{
    let n = notional.0 as int;
    let p = price.spec_bps();
    assert(0 <= n * p <= n * 9_999) by (nonlinear_arith)
        requires
            0 <= n,
            1 <= p <= 9_999,
    ;
}

/// The Yes-buyer's share is the largest whole amount within its part of the notional, in basis
/// points; the Yes-seller has the rest.
pub proof fn law_shares_split_the_notional_by_basis_points(price: Price, notional: Amount)
    requires
        price.in_range(),
    ensures
        price.buyer_share(notional).0 * 10_000 <= notional.0 * price.spec_bps(),
        notional.0 * price.spec_bps() < (price.buyer_share(notional).0 + 1) * 10_000,
        price.seller_share(notional).0 == notional.0 - price.buyer_share(notional).0,
        1 <= price.spec_bps() <= 9_999,
{
    law_locks_make_the_notional(price, notional);
    let scaled = notional.0 * price.spec_bps();
    vstd::arithmetic::div_mod::lemma_fundamental_div_mod(scaled, 10_000);
}

/// A higher price leaves the Yes-buyer no smaller share, and a larger notional neither.
pub proof fn law_shares_grow_with_price_and_notional(
    low: Price,
    high: Price,
    less: Amount,
    more: Amount,
)
    requires
        low.in_range(),
        high.in_range(),
        low.spec_bps() <= high.spec_bps(),
        less.0 <= more.0,
    ensures
        low.buyer_share(less).0 <= high.buyer_share(more).0,
{
    law_locks_make_the_notional(low, less);
    law_locks_make_the_notional(high, more);
    let (a, b) = (less.0 * low.spec_bps(), more.0 * high.spec_bps());
    assert(a <= b) by (nonlinear_arith)
        requires
            a == less.0 * low.spec_bps(),
            b == more.0 * high.spec_bps(),
            0 <= low.spec_bps() <= high.spec_bps(),
            less.0 <= more.0,
    ;
    vstd::arithmetic::div_mod::lemma_div_is_ordered(a, b, 10_000);
}

/// Amounts add up one by one.
pub proof fn law_total_of_amounts(amounts: Seq<Amount>, next: Amount)
    ensures
        amounts_total(Seq::<Amount>::empty()) == 0,
        amounts_total(amounts.push(next)) == amounts_total(amounts) + next.0,
{
    assert(amounts.push(next).drop_last() =~= amounts);
}

/// Amounts are added and taken away as numbers, where the result is an amount.
pub proof fn law_amounts_are_numbers(a: Amount, b: Amount)
    ensures
        vstd::std_specs::ops::AddSpec::add_req(a, b) <==> a.0 + b.0 <= u64::MAX,
        a.0 + b.0 <= u64::MAX ==> vstd::std_specs::ops::AddSpec::add_spec(a, b).0 == a.0 + b.0,
        vstd::std_specs::ops::SubSpec::sub_req(a, b) <==> b.0 <= a.0,
        b.0 <= a.0 ==> vstd::std_specs::ops::SubSpec::sub_spec(a, b).0 == a.0 - b.0,
{
}

} // verus!
