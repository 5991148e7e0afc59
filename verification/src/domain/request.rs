//! The request aggregate: legs, quotes, package and escrows.
use vstd::prelude::*;
use crate::domain::ids;
use crate::domain::ids::{
    ContractDescription, ContractId, LegId, PartyId, QuoteId, RequestId, SeqNo,
};
use crate::domain::money::{Amount, Price};
use crate::domain::state::{FailReason, LegSide, OracleOutcome, QuoteState, RequestState, Tenor};
use crate::seqs;
use crate::time::Timestamp;

verus! {

#[derive(Debug, Clone, Copy, PartialEq, Eq, Structural)]
pub struct ZeroNotional;

#[derive(Debug, Clone, Copy, PartialEq, Eq, Structural)]
pub struct EmptyLegs;

impl ZeroNotional {
    pub open spec fn spec_message(self) -> Seq<char> {
        "leg notional must be greater than zero"@
    }

    pub fn message(self) -> (s: String)
        ensures
            s@ == self.spec_message(),
    {
        "leg notional must be greater than zero".to_owned()
    }
}

impl EmptyLegs {
    pub open spec fn spec_message(self) -> Seq<char> {
        "a request must have at least one leg"@
    }

    pub fn message(self) -> (s: String)
        ensures
            s@ == self.spec_message(),
    {
        "a request must have at least one leg".to_owned()
    }
}

/// One binary contract, the requester's side of it, and a notional.
#[derive(Debug, PartialEq, Eq)]
pub struct Leg {
    pub id: LegId,
    pub contract: ContractId,
    pub description: ContractDescription,
    pub side: LegSide,
    pub notional: Amount,
}

impl Clone for Leg {
    fn clone(&self) -> (copy: Leg)
        ensures
            copy == *self,
    {
        Leg {
            id: self.id,
            contract: self.contract.clone(),
            description: self.description.clone(),
            side: self.side,
            notional: self.notional,
        }
    }
}

impl Leg {
    /// A leg with a random identifier.
    pub fn new(
        contract: ContractId,
        description: ContractDescription,
        side: LegSide,
        notional: Amount,
    ) -> (leg: Result<Leg, ZeroNotional>)
        ensures
            leg is Ok <==> notional.0 > 0,
            leg is Ok ==> leg->Ok_0 == (Leg {
                id: leg->Ok_0.id,
                contract,
                description,
                side,
                notional,
            }),
            leg is Ok ==> ids::is_random(leg->Ok_0.id.0),
            leg is Err ==> leg->Err_0 == ZeroNotional,
    {
        Leg::with_id(LegId::new(), contract, description, side, notional)
    }

    /// A leg with this identifier.
    pub fn with_id(
        id: LegId,
        contract: ContractId,
        description: ContractDescription,
        side: LegSide,
        notional: Amount,
    ) -> (leg: Result<Leg, ZeroNotional>)
        ensures
            leg == if notional.0 > 0 {
                Ok(Leg { id, contract, description, side, notional })
            } else {
                Err(ZeroNotional)
            },
    {
        if notional.is_zero() {
            return Err(ZeroNotional);
        }
        Ok(Leg { id, contract, description, side, notional })
    }
}

/// Whether no two legs have one identifier.
pub open spec fn legs_distinct(legs: Seq<Leg>) -> bool {
    forall|i: int, j: int|
        0 <= i < j < legs.len() ==> (#[trigger] legs[i]).id != (#[trigger] legs[j]).id
}

/// Whether no two legs have one identifier.
pub fn are_legs_distinct(legs: &Vec<Leg>) -> (b: bool)
    ensures
        b == legs_distinct(legs@),
{
    let mut j: usize = 0;
    while j < legs.len()
        invariant
            0 <= j <= legs@.len(),
            forall|a: int, b: int|
                0 <= a < b < j ==> (#[trigger] legs@[a]).id != (#[trigger] legs@[b]).id,
        decreases legs@.len() - j,
    {
        let mut i: usize = 0;
        while i < j
            invariant
                0 <= i <= j < legs@.len(),
                forall|a: int| 0 <= a < i ==> (#[trigger] legs@[a]).id != legs@[j as int].id,
            decreases j - i,
        {
            if legs[i].id == legs[j].id {
                assert(legs@[i as int].id == legs@[j as int].id);
                return false;
            }
            i = i + 1;
        }
        j = j + 1;
    }
    true
}

/// A market maker's firm quote on one leg. It holds collateral while `Live` or `Selected`.
#[derive(Debug, Clone, Copy, PartialEq, Eq, Structural)]
pub struct Quote {
    pub id: QuoteId,
    pub leg_id: LegId,
    pub maker: PartyId,
    pub price: Price,
    pub size: Amount,
    pub expires_at: Timestamp,
    pub submitted_at: Timestamp,
    /// The place of the quote in the order of submission.
    pub seq: SeqNo,
    pub state: QuoteState,
}

impl Quote {
    /// Whether the quote has collateral behind it.
    pub open spec fn holds_collateral(self) -> bool {
        self.state is Live || self.state is Selected
    }

    /// The maker's side of the escrow of `leg` at this quote's price.
    pub open spec fn collateral(self, leg: Leg) -> Amount {
        if leg.side.long_yes() {
            self.price.seller_share(leg.notional)
        } else {
            self.price.buyer_share(leg.notional)
        }
    }

    /// What the maker reserves for a quote on `leg`: its side of the escrow at this price for the
    /// whole notional. The maker takes the side opposite the requester.
    pub fn maker_lock(&self, leg: &Leg) -> (lock: Amount)
        requires
            self.leg_id == leg.id,
        ensures
            lock == self.collateral(*leg),
    {
        if leg.side.requester_buys_yes() {
            self.price.yes_seller_lock(leg.notional)
        } else {
            self.price.yes_buyer_lock(leg.notional)
        }
    }
}

/// The quote chosen for a leg.
#[derive(Debug, Clone, Copy, PartialEq, Eq, Structural)]
pub struct Selection {
    pub leg_id: LegId,
    pub quote_id: QuoteId,
}

/// One selection per leg, put before the requester.
#[derive(Debug, PartialEq, Eq)]
pub struct Package {
    pub selections: Vec<Selection>,
}

impl View for Package {
    type V = Seq<Selection>;

    open spec fn view(&self) -> Seq<Selection> {
        self.selections@
    }
}

impl Clone for Package {
    fn clone(&self) -> (copy: Package)
        ensures
            copy@ == self@,
    {
        Package { selections: self.selections.clone() }
    }
}

/// What is locked for one leg: `p * n` by the Yes-buyer and the rest of `n` by the Yes-seller.
#[derive(Debug, Clone, Copy, PartialEq, Eq, Structural)]
pub struct Escrow {
    pub leg_id: LegId,
    pub yes_buyer: PartyId,
    pub yes_seller: PartyId,
    pub yes_buyer_amount: Amount,
    pub yes_seller_amount: Amount,
    pub notional: Amount,
}

impl Escrow {
    /// The escrow of `leg` at `price` between the two parties.
    pub open spec fn of(leg: Leg, price: Price, requester: PartyId, maker: PartyId) -> Escrow {
        Escrow {
            leg_id: leg.id,
            yes_buyer: if leg.side.long_yes() {
                requester
            } else {
                maker
            },
            yes_seller: if leg.side.long_yes() {
                maker
            } else {
                requester
            },
            yes_buyer_amount: price.buyer_share(leg.notional),
            yes_seller_amount: price.seller_share(leg.notional),
            notional: leg.notional,
        }
    }

    pub fn new(leg: &Leg, price: Price, requester: PartyId, maker: PartyId) -> (escrow: Escrow)
        ensures
            escrow == Escrow::of(*leg, price, requester, maker),
            escrow.yes_buyer_amount.0 + escrow.yes_seller_amount.0 == escrow.notional.0,
    {
        let (yes_buyer, yes_seller) = if leg.side.requester_buys_yes() {
            (requester, maker)
        } else {
            (maker, requester)
        };
        Escrow {
            leg_id: leg.id,
            yes_buyer,
            yes_seller,
            yes_buyer_amount: price.yes_buyer_lock(leg.notional),
            yes_seller_amount: price.yes_seller_lock(leg.notional),
            notional: leg.notional,
        }
    }
}

/// What a maker reserves for a quote is its own side of the escrow that the quote leads to.
pub proof fn law_collateral_is_the_makers_side(quote: Quote, leg: Leg, requester: PartyId)
    requires
        quote.leg_id == leg.id,
    ensures
        ({
            let escrow = Escrow::of(leg, quote.price, requester, quote.maker);
            if leg.side.long_yes() {
                &&& escrow.yes_seller == quote.maker
                &&& escrow.yes_seller_amount == quote.collateral(leg)
            } else {
                &&& escrow.yes_buyer == quote.maker
                &&& escrow.yes_buyer_amount == quote.collateral(leg)
            }
        }),
{
}

/// Aggregate root: the legs and quotes of a request, its deadlines, package and escrows, and the
/// state it is in.
#[derive(Debug, PartialEq, Eq)]
pub struct RfqRequest {
    pub id: RequestId,
    pub requester: PartyId,
    pub legs: Vec<Leg>,
    pub quotes: Vec<Quote>,
    pub tenor: Tenor,
    /// At this instant a package is presented, or the request fails.
    pub response_deadline: Timestamp,
    /// When every leg resolves.
    pub resolves_at: Timestamp,
    /// Set when the request becomes `Presented`.
    pub accept_deadline: Option<Timestamp>,
    pub state: RequestState,
    /// Set when the request becomes `Presented`.
    pub package: Option<Package>,
    /// Empty until the request is `Locked`.
    pub escrows: Vec<Escrow>,
    /// Set when the request becomes `Reported`.
    pub reported_outcome: Option<OracleOutcome>,
    /// Set when the request becomes `Reported`.
    pub dispute_deadline: Option<Timestamp>,
    /// Set when the request becomes `Disputed` and disputes have a time limit.
    pub unwind_deadline: Option<Timestamp>,
    pub fail_reason: Option<FailReason>,
    pub created_at: Timestamp,
}

/// The contents of a request.
#[verifier::ext_equal]
pub struct RequestModel {
    pub id: RequestId,
    pub requester: PartyId,
    pub legs: Seq<Leg>,
    pub quotes: Seq<Quote>,
    pub tenor: Tenor,
    pub response_deadline: Timestamp,
    pub resolves_at: Timestamp,
    pub accept_deadline: Option<Timestamp>,
    pub state: RequestState,
    pub package: Option<Seq<Selection>>,
    pub escrows: Seq<Escrow>,
    pub reported_outcome: Option<OracleOutcome>,
    pub dispute_deadline: Option<Timestamp>,
    pub unwind_deadline: Option<Timestamp>,
    pub fail_reason: Option<FailReason>,
    pub created_at: Timestamp,
}

impl View for RfqRequest {
    type V = RequestModel;

    open spec fn view(&self) -> RequestModel {
        RequestModel {
            id: self.id,
            requester: self.requester,
            legs: self.legs@,
            quotes: self.quotes@,
            tenor: self.tenor,
            response_deadline: self.response_deadline,
            resolves_at: self.resolves_at,
            accept_deadline: self.accept_deadline,
            state: self.state,
            package: match self.package {
                Some(package) => Some(package@),
                None => None,
            },
            escrows: self.escrows@,
            reported_outcome: self.reported_outcome,
            dispute_deadline: self.dispute_deadline,
            unwind_deadline: self.unwind_deadline,
            fail_reason: self.fail_reason,
            created_at: self.created_at,
        }
    }
}

impl Clone for RfqRequest {
    fn clone(&self) -> (copy: RfqRequest)
        ensures
            copy@ == self@,
    {
        let legs = self.legs.clone();
        let quotes = self.quotes.clone();
        let escrows = self.escrows.clone();
        let package = match &self.package {
            Some(package) => Some(package.clone()),
            None => None,
        };
        assert(legs@ =~= self.legs@);
        assert(quotes@ =~= self.quotes@);
        assert(escrows@ =~= self.escrows@);
        RfqRequest {
            id: self.id,
            requester: self.requester,
            legs,
            quotes,
            tenor: self.tenor,
            response_deadline: self.response_deadline,
            resolves_at: self.resolves_at,
            accept_deadline: self.accept_deadline,
            state: self.state,
            package,
            escrows,
            reported_outcome: self.reported_outcome,
            dispute_deadline: self.dispute_deadline,
            unwind_deadline: self.unwind_deadline,
            fail_reason: self.fail_reason,
            created_at: self.created_at,
        }
    }
}

impl RequestModel {
    /// The index of the first leg with this identifier.
    pub open spec fn leg_index(self, id: LegId) -> Option<int> {
        seqs::first_where(self.legs, |l: Leg| l.id == id)
    }

    /// The index of the first quote with this identifier.
    pub open spec fn quote_index(self, id: QuoteId) -> Option<int> {
        seqs::first_where(self.quotes, |q: Quote| q.id == id)
    }

    /// A request as it opens.
    pub open spec fn opened(
        id: RequestId,
        requester: PartyId,
        legs: Seq<Leg>,
        tenor: Tenor,
        response_deadline: Timestamp,
        resolves_at: Timestamp,
        created_at: Timestamp,
    ) -> RequestModel {
        RequestModel {
            id,
            requester,
            legs,
            quotes: Seq::empty(),
            tenor,
            response_deadline,
            resolves_at,
            accept_deadline: None,
            state: RequestState::Open,
            package: None,
            escrows: Seq::empty(),
            reported_outcome: None,
            dispute_deadline: None,
            unwind_deadline: None,
            fail_reason: None,
            created_at,
        }
    }
}

impl RfqRequest {
    /// Opens a request, which has at least one leg.
    pub fn open(
        id: RequestId,
        requester: PartyId,
        legs: Vec<Leg>,
        tenor: Tenor,
        response_deadline: Timestamp,
        resolves_at: Timestamp,
        created_at: Timestamp,
    ) -> (request: Result<RfqRequest, EmptyLegs>)
        ensures
            request is Ok <==> legs@.len() > 0,
            request is Ok ==> request->Ok_0@ == RequestModel::opened(
                id,
                requester,
                legs@,
                tenor,
                response_deadline,
                resolves_at,
                created_at,
            ),
            request is Err ==> request->Err_0 == EmptyLegs,
    {
        if legs.len() == 0 {
            return Err(EmptyLegs);
        }
        Ok(
            RfqRequest {
                id,
                requester,
                legs,
                quotes: Vec::new(),
                tenor,
                response_deadline,
                resolves_at,
                accept_deadline: None,
                state: RequestState::Open,
                package: None,
                escrows: Vec::new(),
                reported_outcome: None,
                dispute_deadline: None,
                unwind_deadline: None,
                fail_reason: None,
                created_at,
            },
        )
    }

    /// The index of the leg with this identifier.
    pub fn find_leg(&self, id: LegId) -> (index: Option<usize>)
        ensures
            index is Some <==> self@.leg_index(id) is Some,
            index is Some ==> self@.leg_index(id) == Some(index->Some_0 as int),
            index is Some ==> index->Some_0 < self.legs@.len() && self.legs@[index->Some_0 as int].id
                == id,
    {
        let ghost named = |l: Leg| l.id == id;
        let mut i: usize = 0;
        while i < self.legs.len()
            invariant
                0 <= i <= self.legs@.len(),
                named == (|l: Leg| l.id == id),
                forall|j: int| 0 <= j < i ==> !named(#[trigger] self.legs@[j]),
            decreases self.legs@.len() - i,
        {
            if self.legs[i].id == id {
                proof {
                    seqs::lemma_first_is(self.legs@, named, i as int);
                }
                return Some(i);
            }
            i = i + 1;
        }
        proof {
            seqs::lemma_first_none(self.legs@, named);
        }
        None
    }

    /// The index of the quote with this identifier.
    pub fn find_quote(&self, id: QuoteId) -> (index: Option<usize>)
        ensures
            index is Some <==> self@.quote_index(id) is Some,
            index is Some ==> self@.quote_index(id) == Some(index->Some_0 as int),
            index is Some ==> index->Some_0 < self.quotes@.len()
                && self.quotes@[index->Some_0 as int].id == id,
    {
        let ghost named = |q: Quote| q.id == id;
        let mut i: usize = 0;
        while i < self.quotes.len()
            invariant
                0 <= i <= self.quotes@.len(),
                named == (|q: Quote| q.id == id),
                forall|j: int| 0 <= j < i ==> !named(#[trigger] self.quotes@[j]),
            decreases self.quotes@.len() - i,
        {
            if self.quotes[i].id == id {
                proof {
                    seqs::lemma_first_is(self.quotes@, named, i as int);
                }
                return Some(i);
            }
            i = i + 1;
        }
        proof {
            seqs::lemma_first_none(self.quotes@, named);
        }
        None
    }

    pub fn leg(&self, id: LegId) -> (leg: Option<&Leg>)
        ensures
            match self@.leg_index(id) {
                Some(i) => leg == Some(&self.legs@[i]),
                None => leg is None,
            },
    {
        match self.find_leg(id) {
            Some(i) => Some(&self.legs[i]),
            None => None,
        }
    }

    pub fn quote(&self, id: QuoteId) -> (quote: Option<&Quote>)
        ensures
            match self@.quote_index(id) {
                Some(i) => quote == Some(&self.quotes@[i]),
                None => quote is None,
            },
    {
        match self.find_quote(id) {
            Some(i) => Some(&self.quotes[i]),
            None => None,
        }
    }

    pub fn quote_mut(&mut self, id: QuoteId) -> (quote: Option<&mut Quote>)
        ensures
            match old(self)@.quote_index(id) {
                Some(i) => {
                    &&& quote is Some
                    &&& *quote->Some_0 == old(self).quotes@[i]
                    &&& final(self)@ == (RequestModel {
                        quotes: old(self).quotes@.update(i, *final(quote->Some_0)),
                        ..old(self)@
                    })
                },
                None => quote is None && *final(self) == *old(self),
            },
    {
        match self.find_quote(id) {
            Some(i) => Some(&mut self.quotes[i]),
            None => None,
        }
    }
}

/// The requester is the Yes-buyer of a leg on which it buys Yes or sells No, and the Yes-seller of
/// the others; the maker is the other one. The Yes-buyer puts up its share of the notional at the
/// price, rounded down, and the Yes-seller the rest; the maker reserves for its quote just what
/// its side puts up.
pub proof fn law_roles_and_sides_of_an_escrow(
    leg: Leg,
    quote: Quote,
    requester: PartyId,
    maker: PartyId,
)
    requires
        quote.price.in_range(),
    ensures
        ({
            let escrow = Escrow::of(leg, quote.price, requester, maker);
            let share = leg.notional.0 as int * quote.price.spec_bps() / 10_000;
            &&& escrow.leg_id == leg.id
            &&& escrow.notional == leg.notional
            &&& escrow.yes_buyer_amount.0 == share
            &&& escrow.yes_seller_amount.0 == leg.notional.0 - share
            &&& leg.side == LegSide::BuyYes || leg.side == LegSide::SellNo ==> {
                &&& escrow.yes_buyer == requester
                &&& escrow.yes_seller == maker
                &&& quote.collateral(leg).0 == leg.notional.0 - share
            }
            &&& leg.side == LegSide::SellYes || leg.side == LegSide::BuyNo ==> {
                &&& escrow.yes_buyer == maker
                &&& escrow.yes_seller == requester
                &&& quote.collateral(leg).0 == share
            }
        }),
{
    crate::domain::money::law_locks_make_the_notional(quote.price, leg.notional);
}

/// A quote has collateral behind it while it is live or selected.
pub proof fn law_which_quotes_hold_collateral(quote: Quote)
    ensures
        quote.holds_collateral() <==> quote.state == QuoteState::Live || quote.state
            == QuoteState::Selected,
{
}

/// A leg and a quote are found under their identifiers, the first of each that has it.
pub proof fn law_lookups_find_the_first(request: RequestModel, leg: LegId, quote: QuoteId)
    ensures
        request.leg_index(leg) matches Some(i) ==> {
            &&& 0 <= i < request.legs.len()
            &&& request.legs[i].id == leg
            &&& forall|j: int| 0 <= j < i ==> (#[trigger] request.legs[j]).id != leg
        },
        request.leg_index(leg) is None ==> forall|j: int|
            0 <= j < request.legs.len() ==> (#[trigger] request.legs[j]).id != leg,
        request.quote_index(quote) matches Some(i) ==> {
            &&& 0 <= i < request.quotes.len()
            &&& request.quotes[i].id == quote
            &&& forall|j: int| 0 <= j < i ==> (#[trigger] request.quotes[j]).id != quote
        },
        request.quote_index(quote) is None ==> forall|j: int|
            0 <= j < request.quotes.len() ==> (#[trigger] request.quotes[j]).id != quote,
{
    let on_leg = |l: Leg| l.id == leg;
    let on_quote = |q: Quote| q.id == quote;
    seqs::lemma_first_some(request.legs, on_leg);
    seqs::lemma_first_some(request.quotes, on_quote);
    if request.leg_index(leg) is None {
        assert forall|j: int| 0 <= j < request.legs.len() implies (
        #[trigger] request.legs[j]).id != leg by {
            if on_leg(request.legs[j]) {
                seqs::lemma_first_exists(request.legs, on_leg, j);
            }
        }
    } else {
        let i = request.leg_index(leg)->Some_0;
        assert forall|j: int| 0 <= j < i implies (#[trigger] request.legs[j]).id != leg by {
            assert(!on_leg(request.legs[j]));
        }
    }
    if request.quote_index(quote) is None {
        assert forall|j: int| 0 <= j < request.quotes.len() implies (
        #[trigger] request.quotes[j]).id != quote by {
            if on_quote(request.quotes[j]) {
                seqs::lemma_first_exists(request.quotes, on_quote, j);
            }
        }
    } else {
        let i = request.quote_index(quote)->Some_0;
        assert forall|j: int| 0 <= j < i implies (#[trigger] request.quotes[j]).id != quote by {
            assert(!on_quote(request.quotes[j]));
        }
    }
}

/// What stands for a request in contracts is the request, field by field.
pub proof fn law_contents_of_a_request(request: RfqRequest)
    ensures
        request@.id == request.id,
        request@.requester == request.requester,
        request@.legs == request.legs@,
        request@.quotes == request.quotes@,
        request@.tenor == request.tenor,
        request@.response_deadline == request.response_deadline,
        request@.resolves_at == request.resolves_at,
        request@.accept_deadline == request.accept_deadline,
        request@.state == request.state,
        request@.package is Some <==> request.package is Some,
        request.package matches Some(package) ==> request@.package == Some(package.selections@),
        request@.escrows == request.escrows@,
        request@.reported_outcome == request.reported_outcome,
        request@.dispute_deadline == request.dispute_deadline,
        request@.unwind_deadline == request.unwind_deadline,
        request@.fail_reason == request.fail_reason,
        request@.created_at == request.created_at,
{
}

/// A request opens as it was asked for, with nothing on it yet.
pub proof fn law_how_a_request_opens(
    id: RequestId,
    requester: PartyId,
    legs: Seq<Leg>,
    tenor: Tenor,
    response_deadline: Timestamp,
    resolves_at: Timestamp,
    created_at: Timestamp,
)
    ensures
        ({
            let request = RequestModel::opened(
                id,
                requester,
                legs,
                tenor,
                response_deadline,
                resolves_at,
                created_at,
            );
            &&& request.id == id
            &&& request.requester == requester
            &&& request.legs == legs
            &&& request.tenor == tenor
            &&& request.response_deadline == response_deadline
            &&& request.resolves_at == resolves_at
            &&& request.created_at == created_at
            &&& request.state == RequestState::Open
            &&& request.quotes.len() == 0
            &&& request.escrows.len() == 0
            &&& request.package is None
            &&& request.accept_deadline is None
            &&& request.reported_outcome is None
            &&& request.dispute_deadline is None
            &&& request.unwind_deadline is None
            &&& request.fail_reason is None
        }),
{
}

/// Legs are told apart by their identifiers where no two have the same.
pub proof fn law_when_legs_are_told_apart(legs: Seq<Leg>, i: int, j: int)
    ensures
        legs_distinct(legs) && 0 <= i < legs.len() && 0 <= j < legs.len() && legs[i].id
            == legs[j].id ==> i == j,
        !legs_distinct(legs) ==> exists|a: int, b: int|
            0 <= a < b < legs.len() && (#[trigger] legs[a]).id == (#[trigger] legs[b]).id,
{
}

} // verus!
