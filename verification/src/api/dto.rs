//! Bodies as they come in, checked into domain types, and views as they go out.
use vstd::prelude::*;
use vstd::std_specs::convert::{FromSpecImpl, TryFromSpecImpl};
use vstd::string::*;
use crate::api::error::ApiError;
use crate::domain::ids;
use crate::domain::ids::{
    ContractDescription, ContractId, InvalidContractDescription, InvalidContractId, LegId, PartyId,
    QuoteId, RequestId,
};
use crate::domain::money::{Amount, InvalidPrice, Price};
use crate::domain::request::{
    EmptyLegs, Escrow, Leg, Package, Quote, RfqRequest, Selection, ZeroNotional,
};
use crate::domain::state::{
    FailReason, LegSide, OracleOutcome, QuoteState, RequestState, Tenor,
};
use crate::ledger::LedgerAccount;
use crate::text;
use crate::time::Timestamp;

verus! {

/// [`LegSide`] on the wire.
#[derive(Debug, Clone, Copy, PartialEq, Eq, Structural)]
pub enum LegSideDto {
    BuyYes,
    SellYes,
    BuyNo,
    SellNo,
}

impl LegSideDto {
    pub open spec fn side(self) -> LegSide {
        match self {
            LegSideDto::BuyYes => LegSide::BuyYes,
            LegSideDto::SellYes => LegSide::SellYes,
            LegSideDto::BuyNo => LegSide::BuyNo,
            LegSideDto::SellNo => LegSide::SellNo,
        }
    }
}

impl From<LegSideDto> for LegSide {
    fn from(s: LegSideDto) -> (side: LegSide) {
        match s {
            LegSideDto::BuyYes => LegSide::BuyYes,
            LegSideDto::SellYes => LegSide::SellYes,
            LegSideDto::BuyNo => LegSide::BuyNo,
            LegSideDto::SellNo => LegSide::SellNo,
        }
    }
}

impl FromSpecImpl<LegSideDto> for LegSide {
    open spec fn obeys_from_spec() -> bool {
        true
    }

    open spec fn from_spec(s: LegSideDto) -> LegSide {
        s.side()
    }
}

/// [`OracleOutcome`] on the wire.
#[derive(Debug, Clone, Copy, PartialEq, Eq, Structural)]
pub enum OutcomeDto {
    Yes,
    No,
    Invalid,
    Disputed,
}

impl OutcomeDto {
    pub open spec fn outcome(self) -> OracleOutcome {
        match self {
            OutcomeDto::Yes => OracleOutcome::Yes,
            OutcomeDto::No => OracleOutcome::No,
            OutcomeDto::Invalid => OracleOutcome::Invalid,
            OutcomeDto::Disputed => OracleOutcome::Disputed,
        }
    }
}

impl From<OutcomeDto> for OracleOutcome {
    fn from(o: OutcomeDto) -> (outcome: OracleOutcome) {
        match o {
            OutcomeDto::Yes => OracleOutcome::Yes,
            OutcomeDto::No => OracleOutcome::No,
            OutcomeDto::Invalid => OracleOutcome::Invalid,
            OutcomeDto::Disputed => OracleOutcome::Disputed,
        }
    }
}

impl FromSpecImpl<OutcomeDto> for OracleOutcome {
    open spec fn obeys_from_spec() -> bool {
        true
    }

    open spec fn from_spec(o: OutcomeDto) -> OracleOutcome {
        o.outcome()
    }
}

/// Asks for a party to be credited.
#[derive(Debug, Clone, Copy, PartialEq, Eq, Structural)]
pub struct CreditBody {
    pub party_id: u128,
    /// Minor units.
    pub amount: u64,
}

impl TryFrom<CreditBody> for (PartyId, Amount) {
    type Error = ApiError;

    fn try_from(b: CreditBody) -> (credit: Result<(PartyId, Amount), ApiError>) {
        if b.amount == 0 {
            return Err(ApiError::ZeroAmount);
        }
        Ok((PartyId(b.party_id), Amount(b.amount)))
    }
}

impl TryFromSpecImpl<CreditBody> for (PartyId, Amount) {
    open spec fn obeys_try_from_spec() -> bool {
        true
    }

    open spec fn try_from_spec(b: CreditBody) -> Result<(PartyId, Amount), ApiError> {
        if b.amount == 0 {
            Err(ApiError::ZeroAmount)
        } else {
            Ok((PartyId(b.party_id), Amount(b.amount)))
        }
    }
}

/// One leg of a new request.
#[derive(Debug, PartialEq, Eq)]
pub struct LegBody {
    pub contract: String,
    pub description: String,
    pub side: LegSideDto,
    /// Minor units.
    pub notional: u64,
}

impl LegBody {
    /// What is wrong with the leg, if anything: the contract, then the description, then the
    /// notional.
    pub open spec fn error(self) -> Option<ApiError> {
        let description = text::trimmed(self.description@);
        if text::trimmed(self.contract@).len() == 0 {
            Some(ApiError::InvalidContractId(InvalidContractId))
        } else if description.len() == 0 {
            Some(ApiError::InvalidContractDescription(InvalidContractDescription::Empty))
        } else if description.len() > 1_000 {
            Some(ApiError::InvalidContractDescription(InvalidContractDescription::TooLong))
        } else if self.notional == 0 {
            Some(ApiError::ZeroNotional(ZeroNotional))
        } else {
            None
        }
    }

    /// Whether `leg` is what this body asks for, under an identifier of the random kind.
    pub open spec fn asks_for(self, leg: Leg) -> bool {
        &&& ids::is_random(leg.id.0)
        &&& leg.contract@ == self.contract@
        &&& leg.description@ == text::trimmed(self.description@)
        &&& leg.side == self.side.side()
        &&& leg.notional == Amount(self.notional)
    }
}

impl TryFrom<LegBody> for Leg {
    type Error = ApiError;

    /// The leg, under a random identifier.
    fn try_from(b: LegBody) -> (leg: Result<Leg, ApiError>)
        ensures
            match b.error() {
                Some(e) => leg is Err && leg->Err_0 == e,
                None => leg is Ok && b.asks_for(leg->Ok_0),
            },
    {
        let contract = match ContractId::new(b.contract.as_str()) {
            Ok(contract) => contract,
            Err(e) => {
                return Err(ApiError::from(e));
            },
        };
        let description = match ContractDescription::new(b.description.as_str()) {
            Ok(description) => description,
            Err(e) => {
                return Err(ApiError::from(e));
            },
        };
        match Leg::new(contract, description, LegSide::from(b.side), Amount(b.notional)) {
            Ok(leg) => Ok(leg),
            Err(e) => Err(ApiError::from(e)),
        }
    }
}

impl TryFromSpecImpl<LegBody> for Leg {
    open spec fn obeys_try_from_spec() -> bool {
        false
    }

    open spec fn try_from_spec(b: LegBody) -> Result<Leg, ApiError> {
        arbitrary()
    }
}

/// Asks for a request to be opened. The requester comes from the header.
#[derive(Debug, PartialEq, Eq)]
pub struct CreateRequestBody {
    pub legs: Vec<LegBody>,
    pub tenor: Tenor,
    pub response_deadline: Timestamp,
}

/// What is wrong with the first bad leg from the `i`-th on.
pub open spec fn first_leg_error(legs: Seq<LegBody>, i: int) -> Option<ApiError>
    decreases legs.len() - i,
{
    if i >= legs.len() {
        None
    } else {
        match legs[i].error() {
            Some(e) => Some(e),
            None => first_leg_error(legs, i + 1),
        }
    }
}

/// What is wrong with the legs of a request, if anything.
pub open spec fn legs_error(legs: Seq<LegBody>) -> Option<ApiError> {
    if legs.len() == 0 {
        Some(ApiError::EmptyLegs(EmptyLegs))
    } else {
        first_leg_error(legs, 0)
    }
}

impl TryFrom<CreateRequestBody> for (Vec<Leg>, Tenor, Timestamp) {
    type Error = ApiError;

    /// The legs, each under a random identifier, the tenor and the deadline.
    fn try_from(b: CreateRequestBody) -> (request: Result<(Vec<Leg>, Tenor, Timestamp), ApiError>)
        ensures
            match legs_error(b.legs@) {
                Some(e) => request is Err && request->Err_0 == e,
                None => {
                    &&& request is Ok
                    &&& request->Ok_0.0@.len() == b.legs@.len()
                    &&& forall|i: int|
                        0 <= i < b.legs@.len() ==> b.legs@[i].asks_for(
                            #[trigger] request->Ok_0.0@[i],
                        )
                    &&& request->Ok_0.1 == b.tenor
                    &&& request->Ok_0.2 == b.response_deadline
                },
            },
    {
        let tenor = b.tenor;
        let response_deadline = b.response_deadline;
        if b.legs.len() == 0 {
            return Err(ApiError::EmptyLegs(EmptyLegs));
        }
        let mut legs: Vec<Leg> = Vec::new();
        let mut i: usize = 0;
        while i < b.legs.len()
            invariant
                0 <= i <= b.legs@.len(),
                b.legs@.len() > 0,
                legs_error(b.legs@) == first_leg_error(b.legs@, i as int),
                legs@.len() == i,
                forall|j: int| 0 <= j < i ==> b.legs@[j].asks_for(#[trigger] legs@[j]),
            decreases b.legs@.len() - i,
        {
            let body = &b.legs[i];
            let copy = LegBody {
                contract: body.contract.clone(),
                description: body.description.clone(),
                side: body.side,
                notional: body.notional,
            };
            match Leg::try_from(copy) {
                Ok(leg) => {
                    legs.push(leg);
                },
                Err(e) => {
                    return Err(e);
                },
            }
            i = i + 1;
        }
        Ok((legs, tenor, response_deadline))
    }
}

impl TryFromSpecImpl<CreateRequestBody> for (Vec<Leg>, Tenor, Timestamp) {
    open spec fn obeys_try_from_spec() -> bool {
        false
    }

    open spec fn try_from_spec(b: CreateRequestBody) -> Result<
        (Vec<Leg>, Tenor, Timestamp),
        ApiError,
    > {
        arbitrary()
    }
}

/// Asks for a quote to be taken. The maker comes from the header, the request from the path.
#[derive(Debug, Clone, Copy, PartialEq, Eq, Structural)]
pub struct SubmitQuoteBody {
    pub leg_id: u128,
    /// Basis points, `1..=9_999`.
    pub price_bps: u32,
    /// Minor units.
    pub size: u64,
    pub expires_at: Timestamp,
}

impl SubmitQuoteBody {
    /// What is wrong with the quote, if anything: the size, then the price.
    pub open spec fn error(self) -> Option<ApiError> {
        if self.size == 0 {
            Some(ApiError::ZeroSize)
        } else if !(1 <= self.price_bps <= 9_999) {
            Some(ApiError::InvalidPrice(InvalidPrice { bps: self.price_bps }))
        } else {
            None
        }
    }
}

impl TryFrom<SubmitQuoteBody> for (LegId, Price, Amount, Timestamp) {
    type Error = ApiError;

    /// The leg, price, size and expiry.
    fn try_from(b: SubmitQuoteBody) -> (quote: Result<(LegId, Price, Amount, Timestamp), ApiError>)
        ensures
            match b.error() {
                Some(e) => quote is Err && quote->Err_0 == e,
                None => {
                    &&& quote is Ok
                    &&& quote->Ok_0.0 == LegId(b.leg_id)
                    &&& quote->Ok_0.1.spec_bps() == b.price_bps
                    &&& quote->Ok_0.2 == Amount(b.size)
                    &&& quote->Ok_0.3 == b.expires_at
                },
            },
    {
        if b.size == 0 {
            return Err(ApiError::ZeroSize);
        }
        match Price::new(b.price_bps) {
            Ok(price) => Ok((LegId(b.leg_id), price, Amount(b.size), b.expires_at)),
            Err(e) => Err(ApiError::from(e)),
        }
    }
}

impl TryFromSpecImpl<SubmitQuoteBody> for (LegId, Price, Amount, Timestamp) {
    open spec fn obeys_try_from_spec() -> bool {
        false
    }

    open spec fn try_from_spec(b: SubmitQuoteBody) -> Result<
        (LegId, Price, Amount, Timestamp),
        ApiError,
    > {
        arbitrary()
    }
}

/// Reports an outcome.
#[derive(Debug, Clone, Copy, PartialEq, Eq, Structural)]
pub struct ResolveBody {
    pub request_id: u128,
    pub outcome: OutcomeDto,
}

impl From<ResolveBody> for (RequestId, OracleOutcome) {
    fn from(b: ResolveBody) -> (report: (RequestId, OracleOutcome)) {
        (RequestId(b.request_id), OracleOutcome::from(b.outcome))
    }
}

impl FromSpecImpl<ResolveBody> for (RequestId, OracleOutcome) {
    open spec fn obeys_from_spec() -> bool {
        true
    }

    open spec fn from_spec(b: ResolveBody) -> (RequestId, OracleOutcome) {
        (RequestId(b.request_id), b.outcome.outcome())
    }
}

/// A party's balances.
#[derive(Debug, Clone, Copy, PartialEq, Eq, Structural)]
pub struct BalanceView {
    pub party_id: PartyId,
    pub free: Amount,
    pub reserved: Amount,
    pub escrowed: Amount,
}

impl From<(PartyId, LedgerAccount)> for BalanceView {
    fn from(row: (PartyId, LedgerAccount)) -> (view: BalanceView) {
        BalanceView {
            party_id: row.0,
            free: row.1.free,
            reserved: row.1.reserved,
            escrowed: row.1.escrowed,
        }
    }
}

impl FromSpecImpl<(PartyId, LedgerAccount)> for BalanceView {
    open spec fn obeys_from_spec() -> bool {
        true
    }

    open spec fn from_spec(row: (PartyId, LedgerAccount)) -> BalanceView {
        BalanceView {
            party_id: row.0,
            free: row.1.free,
            reserved: row.1.reserved,
            escrowed: row.1.escrowed,
        }
    }
}

/// A leg.
#[derive(Debug, PartialEq, Eq)]
pub struct LegView {
    pub id: LegId,
    pub contract: ContractId,
    pub description: ContractDescription,
    pub side: LegSide,
    pub notional: Amount,
}

impl LegView {
    pub open spec fn showing(l: Leg) -> LegView {
        LegView {
            id: l.id,
            contract: l.contract,
            description: l.description,
            side: l.side,
            notional: l.notional,
        }
    }
}

impl From<&Leg> for LegView {
    fn from(l: &Leg) -> (view: LegView) {
        LegView {
            id: l.id,
            contract: l.contract.clone(),
            description: l.description.clone(),
            side: l.side,
            notional: l.notional,
        }
    }
}

impl FromSpecImpl<&Leg> for LegView {
    open spec fn obeys_from_spec() -> bool {
        true
    }

    open spec fn from_spec(l: &Leg) -> LegView {
        LegView::showing(*l)
    }
}

/// A quote, without its place in the order of submission.
#[derive(Debug, Clone, Copy, PartialEq, Eq, Structural)]
pub struct QuoteView {
    pub id: QuoteId,
    pub leg_id: LegId,
    pub maker: PartyId,
    pub price_bps: Price,
    pub size: Amount,
    pub expires_at: Timestamp,
    pub submitted_at: Timestamp,
    pub state: QuoteState,
}

impl QuoteView {
    pub open spec fn showing(q: Quote) -> QuoteView {
        QuoteView {
            id: q.id,
            leg_id: q.leg_id,
            maker: q.maker,
            price_bps: q.price,
            size: q.size,
            expires_at: q.expires_at,
            submitted_at: q.submitted_at,
            state: q.state,
        }
    }
}

impl From<&Quote> for QuoteView {
    fn from(q: &Quote) -> (view: QuoteView) {
        QuoteView {
            id: q.id,
            leg_id: q.leg_id,
            maker: q.maker,
            price_bps: q.price,
            size: q.size,
            expires_at: q.expires_at,
            submitted_at: q.submitted_at,
            state: q.state,
        }
    }
}

impl FromSpecImpl<&Quote> for QuoteView {
    open spec fn obeys_from_spec() -> bool {
        true
    }

    open spec fn from_spec(q: &Quote) -> QuoteView {
        QuoteView::showing(*q)
    }
}

/// The quote chosen for a leg.
#[derive(Debug, Clone, Copy, PartialEq, Eq, Structural)]
pub struct SelectionView {
    pub leg_id: LegId,
    pub quote_id: QuoteId,
}

impl SelectionView {
    pub open spec fn showing(s: Selection) -> SelectionView {
        SelectionView { leg_id: s.leg_id, quote_id: s.quote_id }
    }
}

impl From<&Selection> for SelectionView {
    fn from(s: &Selection) -> (view: SelectionView) {
        SelectionView { leg_id: s.leg_id, quote_id: s.quote_id }
    }
}

impl FromSpecImpl<&Selection> for SelectionView {
    open spec fn obeys_from_spec() -> bool {
        true
    }

    open spec fn from_spec(s: &Selection) -> SelectionView {
        SelectionView::showing(*s)
    }
}

/// A package.
#[derive(Debug, PartialEq, Eq)]
pub struct PackageView {
    pub selections: Vec<SelectionView>,
}

impl PackageView {
    pub fn of(p: &Package) -> (view: PackageView)
        ensures
            view.selections@ == p.selections@.map_values(
                |s: Selection| SelectionView::showing(s),
            ),
    {
        let mut selections: Vec<SelectionView> = Vec::new();
        let mut i: usize = 0;
        while i < p.selections.len()
            invariant
                0 <= i <= p.selections@.len(),
                selections@.len() == i,
                forall|j: int|
                    0 <= j < i ==> #[trigger] selections@[j] == SelectionView::showing(p.selections@[j]),
            decreases p.selections@.len() - i,
        {
            selections.push(SelectionView::from(&p.selections[i]));
            i = i + 1;
        }
        assert(selections@ =~= p.selections@.map_values(
            |s: Selection| SelectionView::showing(s),
        ));
        PackageView { selections }
    }
}

/// What is in escrow for a leg.
#[derive(Debug, Clone, Copy, PartialEq, Eq, Structural)]
pub struct EscrowView {
    pub leg_id: LegId,
    pub yes_buyer: PartyId,
    pub yes_seller: PartyId,
    pub yes_buyer_amount: Amount,
    pub yes_seller_amount: Amount,
    pub notional: Amount,
}

impl EscrowView {
    pub open spec fn showing(e: Escrow) -> EscrowView {
        EscrowView {
            leg_id: e.leg_id,
            yes_buyer: e.yes_buyer,
            yes_seller: e.yes_seller,
            yes_buyer_amount: e.yes_buyer_amount,
            yes_seller_amount: e.yes_seller_amount,
            notional: e.notional,
        }
    }
}

impl From<&Escrow> for EscrowView {
    fn from(e: &Escrow) -> (view: EscrowView) {
        EscrowView {
            leg_id: e.leg_id,
            yes_buyer: e.yes_buyer,
            yes_seller: e.yes_seller,
            yes_buyer_amount: e.yes_buyer_amount,
            yes_seller_amount: e.yes_seller_amount,
            notional: e.notional,
        }
    }
}

impl FromSpecImpl<&Escrow> for EscrowView {
    open spec fn obeys_from_spec() -> bool {
        true
    }

    open spec fn from_spec(e: &Escrow) -> EscrowView {
        EscrowView::showing(*e)
    }
}

/// A request: its state, legs and quotes, and what has become of them.
#[derive(Debug, PartialEq, Eq)]
pub struct RequestView {
    pub id: RequestId,
    pub requester: PartyId,
    pub state: RequestState,
    pub legs: Vec<LegView>,
    pub quotes: Vec<QuoteView>,
    pub package: Option<PackageView>,
    pub escrows: Vec<EscrowView>,
    pub tenor: Tenor,
    pub response_deadline: Timestamp,
    pub resolves_at: Timestamp,
    pub accept_deadline: Option<Timestamp>,
    pub reported_outcome: Option<OracleOutcome>,
    pub dispute_deadline: Option<Timestamp>,
    pub unwind_deadline: Option<Timestamp>,
    pub fail_reason: Option<FailReason>,
    pub created_at: Timestamp,
}

fn leg_views(legs: &Vec<Leg>) -> (views: Vec<LegView>)
    ensures
        views@ == legs@.map_values(|l: Leg| LegView::showing(l)),
{
    let mut views: Vec<LegView> = Vec::new();
    let mut i: usize = 0;
    while i < legs.len()
        invariant
            0 <= i <= legs@.len(),
            views@.len() == i,
            forall|j: int| 0 <= j < i ==> #[trigger] views@[j] == LegView::showing(legs@[j]),
        decreases legs@.len() - i,
    {
        views.push(LegView::from(&legs[i]));
        i = i + 1;
    }
    assert(views@ =~= legs@.map_values(|l: Leg| LegView::showing(l)));
    views
}

fn quote_views(quotes: &Vec<Quote>) -> (views: Vec<QuoteView>)
    ensures
        views@ == quotes@.map_values(|q: Quote| QuoteView::showing(q)),
{
    let mut views: Vec<QuoteView> = Vec::new();
    let mut i: usize = 0;
    while i < quotes.len()
        invariant
            0 <= i <= quotes@.len(),
            views@.len() == i,
            forall|j: int|
                0 <= j < i ==> #[trigger] views@[j] == QuoteView::showing(quotes@[j]),
        decreases quotes@.len() - i,
    {
        views.push(QuoteView::from(&quotes[i]));
        i = i + 1;
    }
    assert(views@ =~= quotes@.map_values(|q: Quote| QuoteView::showing(q)));
    views
}

fn escrow_views(escrows: &Vec<Escrow>) -> (views: Vec<EscrowView>)
    ensures
        views@ == escrows@.map_values(|e: Escrow| EscrowView::showing(e)),
{
    let mut views: Vec<EscrowView> = Vec::new();
    let mut i: usize = 0;
    while i < escrows.len()
        invariant
            0 <= i <= escrows@.len(),
            views@.len() == i,
            forall|j: int|
                0 <= j < i ==> #[trigger] views@[j] == EscrowView::showing(escrows@[j]),
        decreases escrows@.len() - i,
    {
        views.push(EscrowView::from(&escrows[i]));
        i = i + 1;
    }
    assert(views@ =~= escrows@.map_values(|e: Escrow| EscrowView::showing(e)));
    views
}

impl RequestView {
    pub fn of(r: &RfqRequest) -> (view: RequestView)
        ensures
            view.id == r.id,
            view.requester == r.requester,
            view.state == r.state,
            view.legs@ == r.legs@.map_values(|l: Leg| LegView::showing(l)),
            view.quotes@ == r.quotes@.map_values(|q: Quote| QuoteView::showing(q)),
            match r.package {
                Some(package) => view.package is Some && view.package->Some_0.selections@
                    == package.selections@.map_values(|s: Selection| SelectionView::showing(s)),
                None => view.package is None,
            },
            view.escrows@ == r.escrows@.map_values(|e: Escrow| EscrowView::showing(e)),
            view.tenor == r.tenor,
            view.response_deadline == r.response_deadline,
            view.resolves_at == r.resolves_at,
            view.accept_deadline == r.accept_deadline,
            view.reported_outcome == r.reported_outcome,
            view.dispute_deadline == r.dispute_deadline,
            view.unwind_deadline == r.unwind_deadline,
            view.fail_reason == r.fail_reason,
            view.created_at == r.created_at,
    {
        RequestView {
            id: r.id,
            requester: r.requester,
            state: r.state,
            legs: leg_views(&r.legs),
            quotes: quote_views(&r.quotes),
            package: match &r.package {
                Some(package) => Some(PackageView::of(package)),
                None => None,
            },
            escrows: escrow_views(&r.escrows),
            tenor: r.tenor,
            response_deadline: r.response_deadline,
            resolves_at: r.resolves_at,
            accept_deadline: r.accept_deadline,
            reported_outcome: r.reported_outcome,
            dispute_deadline: r.dispute_deadline,
            unwind_deadline: r.unwind_deadline,
            fail_reason: r.fail_reason,
            created_at: r.created_at,
        }
    }
}

} // verus!
