//! Best-quote selection.
use vstd::prelude::*;
use crate::domain::ids::QuoteId;
use crate::domain::request::{Leg, Quote};
use crate::domain::state::{LegSide, QuoteState};
use crate::seqs;
use crate::time::Timestamp;

verus! {

/// Whether `quote` may be chosen for `leg` at `now`: it is live, on this leg, large enough, not
/// expired, and outlives the accept window.
pub open spec fn eligible(
    leg: Leg,
    quote: Quote,
    now: Timestamp,
    accept_deadline: Timestamp,
) -> bool {
    &&& quote.state is Live
    &&& quote.leg_id == leg.id
    &&& quote.size.0 >= leg.notional.0
    &&& quote.expires_at@ > now@
    &&& quote.expires_at@ >= accept_deadline@
}

/// Whether the requester of `leg` does strictly better with `a` than with `b`: by a lower Yes
/// price if it ends up long Yes and by a higher one if not, and at one price by earlier
/// submission.
pub open spec fn beats(leg: Leg, a: Quote, b: Quote) -> bool {
    if a.price.spec_bps() == b.price.spec_bps() {
        a.seq.0 < b.seq.0
    } else if leg.side.long_yes() {
        a.price.spec_bps() < b.price.spec_bps()
    } else {
        a.price.spec_bps() > b.price.spec_bps()
    }
}

/// Whether `quote` is eligible and nothing eligible among `quotes` beats it.
pub open spec fn unbeaten(
    leg: Leg,
    quotes: Seq<Quote>,
    now: Timestamp,
    accept_deadline: Timestamp,
    quote: Quote,
) -> bool {
    &&& eligible(leg, quote, now, accept_deadline)
    &&& forall|j: int|
        0 <= j < quotes.len() && eligible(leg, #[trigger] quotes[j], now, accept_deadline)
            ==> !beats(leg, quotes[j], quote)
}

/// The index of the best quote for `leg`: the first that is unbeaten.
pub open spec fn best_index(
    leg: Leg,
    quotes: Seq<Quote>,
    now: Timestamp,
    accept_deadline: Timestamp,
) -> Option<int> {
    seqs::first_where(quotes, |q: Quote| unbeaten(leg, quotes, now, accept_deadline, q))
}

fn is_eligible(leg: &Leg, quote: &Quote, now: Timestamp, accept_deadline: Timestamp) -> (b: bool)
    ensures
        b == eligible(*leg, *quote, now, accept_deadline),
{
    quote.state == QuoteState::Live && quote.leg_id == leg.id && quote.size.0 >= leg.notional.0
        && now.is_before(quote.expires_at) && !quote.expires_at.is_before(accept_deadline)
}

fn is_better(leg: &Leg, a: &Quote, b: &Quote) -> (r: bool)
    ensures
        r == beats(*leg, *a, *b),
{
    let a_bps: u32 = a.price.bps();
    let b_bps: u32 = b.price.bps();
    if a_bps == b_bps {
        a.seq.0 < b.seq.0
    } else if leg.side.requester_buys_yes() {
        a_bps < b_bps
    } else {
        a_bps > b_bps
    }
}

/// The index of the best eligible quote for `leg`, if any.
pub fn best_quote(
    leg: &Leg,
    quotes: &[Quote],
    now: Timestamp,
    accept_deadline: Timestamp,
) -> (index: Option<usize>)
    ensures
        match best_index(*leg, quotes@, now, accept_deadline) {
            Some(i) => index is Some && index->Some_0 == i && 0 <= i < quotes@.len(),
            None => index is None,
        },
{
    let mut best: Option<usize> = None;
    let mut i: usize = 0;
    while i < quotes.len()
        invariant
            0 <= i <= quotes@.len(),
            best matches Some(b) ==> {
                &&& 0 <= b < i
                &&& eligible(*leg, quotes@[b as int], now, accept_deadline)
                &&& forall|j: int|
                    0 <= j < i && eligible(*leg, #[trigger] quotes@[j], now, accept_deadline) ==> {
                        &&& !beats(*leg, quotes@[j], quotes@[b as int])
                        &&& j < b ==> beats(*leg, quotes@[b as int], quotes@[j])
                    }
            },
            best is None ==> forall|j: int|
                0 <= j < i ==> !eligible(*leg, #[trigger] quotes@[j], now, accept_deadline),
        decreases quotes@.len() - i,
    {
        if is_eligible(leg, &quotes[i], now, accept_deadline) {
            match best {
                Some(b) => {
                    if is_better(leg, &quotes[i], &quotes[b]) {
                        best = Some(i);
                    }
                },
                None => {
                    best = Some(i);
                },
            }
        }
        i = i + 1;
    }
    proof {
        let good = |q: Quote| unbeaten(*leg, quotes@, now, accept_deadline, q);
        match best {
            Some(b) => {
                assert(unbeaten(*leg, quotes@, now, accept_deadline, quotes@[b as int]));
                assert forall|j: int| 0 <= j < b implies !good(#[trigger] quotes@[j]) by {
                    if unbeaten(*leg, quotes@, now, accept_deadline, quotes@[j]) {
                        assert(beats(*leg, quotes@[b as int], quotes@[j]));
                    }
                }
                seqs::lemma_first_is(quotes@, good, b as int);
            },
            None => {
                seqs::lemma_first_none(quotes@, good);
            },
        }
    }
    best
}

/// The best eligible quote for `leg`, if any. A requester who ends up long Yes gets the lowest
/// Yes price, one who ends up short Yes the highest; a tie goes to the quote that was submitted
/// first.
pub fn select_best(
    leg: &Leg,
    quotes: &[Quote],
    now: Timestamp,
    accept_deadline: Timestamp,
) -> (id: Option<QuoteId>)
    ensures
        match best_index(*leg, quotes@, now, accept_deadline) {
            Some(i) => id == Some(quotes@[i].id),
            None => id is None,
        },
{
    match best_quote(leg, quotes, now, accept_deadline) {
        Some(i) => Some(quotes[i].id),
        None => None,
    }
}

/// Some quote is chosen exactly when some quote is eligible; the chosen one is eligible, and no
/// eligible quote beats it.
pub proof fn law_best_is_eligible_and_unbeaten(
    leg: Leg,
    quotes: Seq<Quote>,
    now: Timestamp,
    accept_deadline: Timestamp,
)
    ensures
        best_index(leg, quotes, now, accept_deadline) is Some <==> exists|j: int|
            0 <= j < quotes.len() && eligible(leg, #[trigger] quotes[j], now, accept_deadline),
        best_index(leg, quotes, now, accept_deadline) matches Some(i) ==> 0 <= i < quotes.len()
            && unbeaten(leg, quotes, now, accept_deadline, quotes[i]),
{
    let good = |q: Quote| unbeaten(leg, quotes, now, accept_deadline, q);
    seqs::lemma_first_some(quotes, good);
    if exists|j: int|
        0 <= j < quotes.len() && eligible(leg, #[trigger] quotes[j], now, accept_deadline) {
        let j = choose|j: int|
            0 <= j < quotes.len() && eligible(leg, #[trigger] quotes[j], now, accept_deadline);
        let k = lemma_some_prefix_winner(leg, quotes, now, accept_deadline, quotes.len() as int, j);
        seqs::lemma_first_exists(quotes, good, k);
    }
}

/// Among the first `n` quotes, one of which is eligible, some eligible one is beaten by none.
proof fn lemma_some_prefix_winner(
    leg: Leg,
    quotes: Seq<Quote>,
    now: Timestamp,
    accept_deadline: Timestamp,
    n: int,
    witness: int,
) -> (k: int)
    requires
        0 <= witness < n <= quotes.len(),
        eligible(leg, quotes[witness], now, accept_deadline),
    ensures
        0 <= k < n,
        eligible(leg, quotes[k], now, accept_deadline),
        forall|j: int|
            0 <= j < n && eligible(leg, #[trigger] quotes[j], now, accept_deadline) ==> !beats(
                leg,
                quotes[j],
                quotes[k],
            ),
    decreases n,
{
    if exists|j: int|
        0 <= j < n - 1 && eligible(leg, #[trigger] quotes[j], now, accept_deadline) {
        let j = choose|j: int|
            0 <= j < n - 1 && eligible(leg, #[trigger] quotes[j], now, accept_deadline);
        let k = lemma_some_prefix_winner(leg, quotes, now, accept_deadline, n - 1, j);
        if eligible(leg, quotes[n - 1], now, accept_deadline) && beats(
            leg,
            quotes[n - 1],
            quotes[k],
        ) {
            n - 1
        } else {
            k
        }
    } else {
        witness
    }
}

/// Where quotes on a leg carry different submission numbers, the best one is strictly better
/// than every other eligible quote, wherever they stand in the list.
pub proof fn law_best_beats_the_rest(
    leg: Leg,
    quotes: Seq<Quote>,
    now: Timestamp,
    accept_deadline: Timestamp,
    i: int,
    j: int,
)
    requires
        best_index(leg, quotes, now, accept_deadline) == Some(i),
        0 <= j < quotes.len(),
        eligible(leg, quotes[j], now, accept_deadline),
        quotes[j].seq != quotes[i].seq,
    ensures
        beats(leg, quotes[i], quotes[j]),
{
    law_best_is_eligible_and_unbeaten(leg, quotes, now, accept_deadline);
}

/// The chosen quote is live, on the leg, large enough, not expired and outlives the accept window.
/// It has the lowest price of all such quotes if the requester ends up long Yes and the highest
/// if not, and is the earliest submitted of those at its price. There is one exactly when there
/// is such a quote.
pub proof fn law_best_price_then_first_submitted(
    leg: Leg,
    quotes: Seq<Quote>,
    now: Timestamp,
    accept_deadline: Timestamp,
    j: int,
)
    ensures
        best_index(leg, quotes, now, accept_deadline) matches Some(i) ==> {
            &&& 0 <= i < quotes.len()
            &&& quotes[i].state == QuoteState::Live
            &&& quotes[i].leg_id == leg.id
            &&& quotes[i].size.0 >= leg.notional.0
            &&& now@ < quotes[i].expires_at@
            &&& accept_deadline@ <= quotes[i].expires_at@
        },
        0 <= j < quotes.len() && quotes[j].state == QuoteState::Live && quotes[j].leg_id == leg.id
            && quotes[j].size.0 >= leg.notional.0 && now@ < quotes[j].expires_at@
            && accept_deadline@ <= quotes[j].expires_at@ ==> {
            &&& best_index(leg, quotes, now, accept_deadline) matches Some(i)
            &&& leg.side == LegSide::BuyYes || leg.side == LegSide::SellNo
                ==> quotes[i].price.spec_bps() <= quotes[j].price.spec_bps()
            &&& leg.side == LegSide::SellYes || leg.side == LegSide::BuyNo
                ==> quotes[i].price.spec_bps() >= quotes[j].price.spec_bps()
            &&& quotes[i].price.spec_bps() == quotes[j].price.spec_bps() ==> quotes[i].seq.0
                <= quotes[j].seq.0
            &&& quotes[i].price.spec_bps() == quotes[j].price.spec_bps() && quotes[i].seq.0
                == quotes[j].seq.0 ==> i <= j
        },
{
    law_best_is_eligible_and_unbeaten(leg, quotes, now, accept_deadline);
    let good = |q: Quote| unbeaten(leg, quotes, now, accept_deadline, q);
    seqs::lemma_first_some(quotes, good);
    if 0 <= j < quotes.len() && eligible(leg, quotes[j], now, accept_deadline) {
        let i = best_index(leg, quotes, now, accept_deadline)->Some_0;
        if j < i && quotes[i].price.spec_bps() == quotes[j].price.spec_bps() && quotes[i].seq.0
            == quotes[j].seq.0 {
            assert(unbeaten(leg, quotes, now, accept_deadline, quotes[j]));
            assert(good(quotes[j]));
        }
    }
}

} // verus!
