//! Everything the engine can be asked to do, and one way to ask it.
use vstd::prelude::*;
use crate::domain::ids;
use crate::domain::ids::{LegId, PartyId, QuoteId, RequestId};
use crate::domain::money::{Amount, Price};
use crate::domain::request::{Leg, Quote, RfqRequest};
use crate::domain::state::{OracleOutcome, Tenor};
use crate::engine::course;
use crate::engine::error::EngineError;
use crate::engine::model::EngineModel;
use crate::engine::venue;
use crate::engine::venue::Engine;
use crate::engine::keeps;
use crate::ledger::{Ledger, LedgerAccount};
use crate::ports::Clock;
use crate::time::Timestamp;

verus! {

/// Something to do.
#[derive(Debug)]
pub enum Command {
    SubmitRequest {
        requester: PartyId,
        legs: Vec<Leg>,
        tenor: Tenor,
        response_deadline: Timestamp,
    },
    SubmitQuote {
        maker: PartyId,
        request_id: RequestId,
        leg_id: LegId,
        price: Price,
        size: Amount,
        expires_at: Timestamp,
    },
    CancelQuote { maker: PartyId, quote_id: QuoteId },
    Accept { requester: PartyId, request_id: RequestId },
    Reject { requester: PartyId, request_id: RequestId },
    Resolve { request_id: RequestId, outcome: OracleOutcome },
    Dispute { party: PartyId, request_id: RequestId },
    GetRequest { request_id: RequestId },
    Credit { party: PartyId, amount: Amount },
    Balance { party: PartyId },
    /// Deadlines are absolute, so the instant is carried, not read.
    Tick { now: Timestamp },
}

/// What a command is answered with.
#[derive(Debug, PartialEq, Eq)]
pub enum Reply {
    Request(Result<RfqRequest, EngineError>),
    Quote(Result<Quote, EngineError>),
    Cancelled(Result<(), EngineError>),
    Account(LedgerAccount),
    Ticked,
}

/// What a command does to the venue and what it is answered with. `fresh` is the identifier of
/// a request or quote that it adds.
pub open spec fn performed(
    v: EngineModel,
    now: Timestamp,
    fresh: u128,
    cmd: Command,
    w: EngineModel,
    reply: Reply,
) -> bool {
    match cmd {
        Command::SubmitRequest { requester, legs, tenor, response_deadline } => {
            let done = v.submit_request(
                now,
                RequestId(fresh),
                requester,
                legs@,
                tenor,
                response_deadline,
            );
            &&& w == done.venue
            &&& reply matches Reply::Request(answer) && venue::answers(answer, done.answer)
        },
        Command::SubmitQuote { maker, request_id, leg_id, price, size, expires_at } => {
            let done = v.submit_quote(
                now,
                QuoteId(fresh),
                maker,
                request_id,
                leg_id,
                price,
                size,
                expires_at,
            );
            w == done.venue && reply == Reply::Quote(done.answer)
        },
        Command::CancelQuote { maker, quote_id } => {
            let done = v.cancel_quote(maker, quote_id);
            w == done.venue && reply == Reply::Cancelled(done.answer)
        },
        Command::Accept { requester, request_id } => {
            &&& v.accept(now, requester, request_id) matches Some(done)
            &&& w == done.venue
            &&& reply matches Reply::Request(answer) && venue::answers(answer, done.answer)
        },
        Command::Reject { requester, request_id } => {
            let done = v.reject(requester, request_id);
            &&& w == done.venue
            &&& reply matches Reply::Request(answer) && venue::answers(answer, done.answer)
        },
        Command::Resolve { request_id, outcome } => {
            &&& v.resolve(now, request_id, outcome) matches Some(done)
            &&& w == done.venue
            &&& reply matches Reply::Request(answer) && venue::answers(answer, done.answer)
        },
        Command::Dispute { party, request_id } => {
            &&& v.dispute(now, party, request_id) matches Some(done)
            &&& w == done.venue
            &&& reply matches Reply::Request(answer) && venue::answers(answer, done.answer)
        },
        Command::GetRequest { request_id } => {
            &&& w == v
            &&& reply matches Reply::Request(answer) && venue::answers(
                answer,
                match v.find(request_id) {
                    Some(i) => Ok(v.entries[i].request),
                    None => Err(EngineError::NotFound),
                },
            )
        },
        Command::Credit { party, amount } => {
            &&& w == (EngineModel { ledger: v.ledger.credit(party, amount), ..v })
            &&& reply == Reply::Account(w.ledger.account(party).account())
        },
        Command::Balance { party } => {
            w == v && reply == Reply::Account(v.ledger.account(party).account())
        },
        Command::Tick { now } => Some(w) == v.tick(now) && reply is Ticked,
    }
}

/// Whether the identifier is one for what a command adds: no request, or no quote, has it.
pub open spec fn unused(v: EngineModel, fresh: u128, cmd: Command) -> bool {
    match cmd {
        Command::SubmitRequest { .. } => keeps::request_id_fresh(v, RequestId(fresh)),
        Command::SubmitQuote { .. } => keeps::quote_id_fresh(v, QuoteId(fresh)),
        _ => true,
    }
}

/// Whether no identifier is left for what a command adds, among all that differ from some random
/// one in the bits behind its variant only.
pub open spec fn used_up(v: EngineModel, cmd: Command) -> bool {
    exists|drawn: u128| #[trigger]
        ids::is_random(drawn) && forall|k: u64|
            k < ids::NEIGHBOURS ==> !unused(v, #[trigger] ids::neighbour(drawn, k), cmd)
}

/// Whether nothing stands against a command: amounts have room, new deadlines are on the calendar,
/// and what is held for the legs can be told apart.
pub open spec fn takes(v: EngineModel, now: Timestamp, fresh: u128, cmd: Command) -> bool {
    match cmd {
        Command::SubmitQuote { maker, request_id, leg_id, price, size, expires_at } => {
            v.room_to_quote(
                now,
                QuoteId(fresh),
                maker,
                request_id,
                leg_id,
                price,
                size,
                expires_at,
            )
        },
        Command::CancelQuote { maker, quote_id } => v.room_to_cancel(maker, quote_id),
        Command::Reject { requester, request_id } => v.room_to_reject(requester, request_id),
        Command::Accept { requester, request_id } => {
            v.accept(now, requester, request_id) is Some
        },
        Command::Resolve { request_id, outcome } => {
            v.resolve(now, request_id, outcome) is Some
        },
        Command::Dispute { party, request_id } => v.dispute(now, party, request_id) is Some,
        Command::Credit { party, amount } => v.ledger.credit(party, amount).fits(),
        Command::Tick { now } => v.tick(now) is Some,
        _ => true,
    }
}

/// What a command against which something stands does to the venue: nothing, but the clock moves
/// requests on up to the first that cannot be.
pub open spec fn left_undone(v: EngineModel, cmd: Command, w: EngineModel) -> bool {
    match cmd {
        Command::Tick { now } => v.stops_at(now, w),
        _ => w == v,
    }
}

impl<L: Ledger> Engine<L> {
    /// Performs a command against which nothing stands, and no other. `fresh` is the identifier
    /// of a request or quote that it adds. The clock is the exception: it moves requests on up to
    /// the first that cannot be.
    pub fn apply(&mut self, now: Timestamp, fresh: u128, cmd: Command) -> (reply: Option<Reply>)
        requires
            old(self)@.wf(),
            unused(old(self)@, fresh, cmd),
        ensures
            reply is Some <==> takes(old(self)@, now, fresh, cmd),
            match reply {
                Some(reply) => performed(old(self)@, now, fresh, cmd, final(self)@, reply),
                None => left_undone(old(self)@, cmd, final(self)@),
            },
            final(self)@.wf(),
            old(self)@.escrow_matches() ==> final(self)@.escrow_matches(),
    {
        match cmd {
            Command::SubmitRequest { requester, legs, tenor, response_deadline } => {
                let answer = self.submit_request(
                    now,
                    RequestId(fresh),
                    requester,
                    legs,
                    tenor,
                    response_deadline,
                );
                Some(Reply::Request(answer))
            },
            Command::SubmitQuote { maker, request_id, leg_id, price, size, expires_at } => {
                if !self.can_quote(
                    now,
                    QuoteId(fresh),
                    maker,
                    request_id,
                    leg_id,
                    price,
                    size,
                    expires_at,
                ) {
                    return None;
                }
                let answer = self.submit_quote(
                    now,
                    QuoteId(fresh),
                    maker,
                    request_id,
                    leg_id,
                    price,
                    size,
                    expires_at,
                );
                Some(Reply::Quote(answer))
            },
            Command::CancelQuote { maker, quote_id } => {
                if !self.can_cancel(maker, quote_id) {
                    return None;
                }
                Some(Reply::Cancelled(self.cancel_quote(maker, quote_id)))
            },
            Command::Accept { requester, request_id } => {
                if !self.can_accept(now, requester, request_id) {
                    return None;
                }
                Some(Reply::Request(self.accept(now, requester, request_id)))
            },
            Command::Reject { requester, request_id } => {
                if !self.can_reject(requester, request_id) {
                    return None;
                }
                Some(Reply::Request(self.reject(requester, request_id)))
            },
            Command::Resolve { request_id, outcome } => {
                if !self.can_resolve(now, request_id, outcome) {
                    return None;
                }
                Some(Reply::Request(self.resolve(now, request_id, outcome)))
            },
            Command::Dispute { party, request_id } => {
                if !self.can_dispute(now, party, request_id) {
                    return None;
                }
                Some(Reply::Request(self.dispute(now, party, request_id)))
            },
            Command::GetRequest { request_id } => {
                Some(Reply::Request(self.get_request(request_id)))
            },
            Command::Credit { party, amount } => {
                if !self.ledger().can_credit(party, amount) {
                    return None;
                }
                Some(Reply::Account(self.credit(party, amount)))
            },
            Command::Balance { party } => Some(Reply::Account(self.balance(party))),
            Command::Tick { now } => {
                if self.advance(now) {
                    Some(Reply::Ticked)
                } else {
                    None
                }
            },
        }
    }

    /// The drawn identifier for what a command adds. One that is in use is passed over for the
    /// first that is not among those next to it.
    pub fn unused_id(&self, drawn: u128, cmd: &Command) -> (fresh: Option<u128>)
        requires
            ids::is_random(drawn),
        ensures
            unused(self@, drawn, *cmd) ==> fresh == Some(drawn),
            match fresh {
                Some(fresh) => {
                    &&& ids::is_random(fresh)
                    &&& unused(self@, fresh, *cmd)
                    &&& fresh != drawn ==> exists|k: u64|
                        {
                            &&& k < ids::NEIGHBOURS
                            &&& fresh == #[trigger] ids::neighbour(drawn, k)
                            &&& forall|j: u64|
                                j < k ==> !unused(self@, #[trigger] ids::neighbour(drawn, j), *cmd)
                        }
                },
                None => used_up(self@, *cmd),
            },
    {
        if self.is_unused(drawn, cmd) {
            return Some(drawn);
        }
        let mut k: u64 = 0;
        while k < ids::NEIGHBOURS
            invariant
                ids::is_random(drawn),
                !unused(self@, drawn, *cmd),
                forall|j: u64| j < k ==> !unused(self@, #[trigger] ids::neighbour(drawn, j), *cmd),
            decreases ids::NEIGHBOURS - k,
        {
            let next: u128 = ids::next_to(drawn, k);
            if self.is_unused(next, cmd) {
                assert(next == ids::neighbour(drawn, k));
                return Some(next);
            }
            k = k + 1;
        }
        None
    }

    fn is_unused(&self, fresh: u128, cmd: &Command) -> (b: bool)
        ensures
            b == unused(self@, fresh, *cmd),
    {
        match cmd {
            Command::SubmitRequest { .. } => !self.has_request(RequestId(fresh)),
            Command::SubmitQuote { .. } => !self.has_quote(QuoteId(fresh)),
            _ => true,
        }
    }

    /// Performs a command at the time on the clock, with a random identifier for what it adds.
    /// Where something stands against it, there is no reply.
    pub fn handle<C: Clock>(&mut self, clock: &C, cmd: Command) -> (reply: Option<Reply>)
        requires
            old(self)@.wf(),
        ensures
            (exists|now: Timestamp, fresh: u128|
                #![trigger takes(old(self)@, now, fresh, cmd)]
                {
                    &&& call_ensures(C::now, (clock,), now)
                    &&& ids::is_random(fresh) && unused(old(self)@, fresh, cmd)
                    &&& reply is Some <==> takes(old(self)@, now, fresh, cmd)
                    &&& match reply {
                        Some(reply) => performed(old(self)@, now, fresh, cmd, final(self)@, reply),
                        None => left_undone(old(self)@, cmd, final(self)@),
                    }
                }) || (used_up(old(self)@, cmd) && reply is None && final(self)@ == old(self)@),
            final(self)@.wf(),
            old(self)@.escrow_matches() ==> final(self)@.escrow_matches(),
    {
        let now = clock.now();
        let ghost v = self@;
        let drawn: u128 = match &cmd {
            Command::SubmitQuote { .. } => QuoteId::new().0,
            _ => RequestId::new().0,
        };
        match self.unused_id(drawn, &cmd) {
            Some(fresh) => {
                let reply = self.apply(now, fresh, cmd);
                assert(reply is Some <==> takes(v, now, fresh, cmd));
                reply
            },
            None => None,
        }
    }
}

/// Each command does what it names, to what it names, at the time that it is given, and is answered
/// in kind; reading changes nothing. A clock is moved to the instant that the command carries.
pub proof fn law_commands_do_what_they_name(
    v: EngineModel,
    now: Timestamp,
    fresh: u128,
    w: EngineModel,
    reply: Reply,
    party: PartyId,
    request_id: RequestId,
    quote_id: QuoteId,
    outcome: OracleOutcome,
    amount: Amount,
    later: Timestamp,
)
    ensures
        performed(v, now, fresh, Command::CancelQuote { maker: party, quote_id }, w, reply) ==> {
            let done = v.cancel_quote(party, quote_id);
            w == done.venue && (reply matches Reply::Cancelled(answer) && answer == done.answer)
        },
        performed(v, now, fresh, Command::Accept { requester: party, request_id }, w, reply) ==> {
            &&& v.accept(now, party, request_id) matches Some(done)
            &&& w == done.venue
            &&& reply matches Reply::Request(answer)
            &&& match done.answer {
                Ok(request) => answer matches Ok(r) && r@ == request,
                Err(e) => answer matches Err(a) && a == e,
            }
        },
        performed(v, now, fresh, Command::Reject { requester: party, request_id }, w, reply) ==> {
            let done = v.reject(party, request_id);
            &&& w == done.venue
            &&& reply matches Reply::Request(answer)
            &&& match done.answer {
                Ok(request) => answer matches Ok(r) && r@ == request,
                Err(e) => answer matches Err(a) && a == e,
            }
        },
        performed(v, now, fresh, Command::Resolve { request_id, outcome }, w, reply) ==> {
            &&& v.resolve(now, request_id, outcome) matches Some(done)
            &&& w == done.venue
            &&& reply matches Reply::Request(answer)
            &&& match done.answer {
                Ok(request) => answer matches Ok(r) && r@ == request,
                Err(e) => answer matches Err(a) && a == e,
            }
        },
        performed(v, now, fresh, Command::Dispute { party, request_id }, w, reply) ==> {
            &&& v.dispute(now, party, request_id) matches Some(done)
            &&& w == done.venue
            &&& reply matches Reply::Request(answer)
            &&& match done.answer {
                Ok(request) => answer matches Ok(r) && r@ == request,
                Err(e) => answer matches Err(a) && a == e,
            }
        },
        performed(v, now, fresh, Command::GetRequest { request_id }, w, reply) ==> {
            &&& w == v
            &&& reply matches Reply::Request(answer)
            &&& match v.find(request_id) {
                Some(i) => answer matches Ok(r) && r@ == v.entries[i].request,
                None => answer matches Err(a) && a == EngineError::NotFound,
            }
        },
        performed(v, now, fresh, Command::Credit { party, amount }, w, reply) ==> {
            &&& w.ledger == v.ledger.credit(party, amount)
            &&& w.entries == v.entries
            &&& w.config == v.config
            &&& w.next_seq == v.next_seq
            &&& reply matches Reply::Account(account)
            &&& account == w.ledger.account(party).account()
        },
        performed(v, now, fresh, Command::Balance { party }, w, reply) ==> {
            &&& w == v
            &&& reply matches Reply::Account(account)
            &&& account == v.ledger.account(party).account()
        },
        performed(v, now, fresh, Command::Tick { now: later }, w, reply) ==> Some(w) == v.tick(later)
            && reply is Ticked,
{
}

/// A request or a quote is submitted as the command has it, under the fresh identifier.
pub proof fn law_submissions_are_as_commanded(
    v: EngineModel,
    now: Timestamp,
    fresh: u128,
    w: EngineModel,
    reply: Reply,
    cmd: Command,
)
    ensures
        performed(v, now, fresh, cmd, w, reply) ==> {
            &&& cmd matches Command::SubmitRequest { requester, legs, tenor, response_deadline }
                ==> {
                let done = v.submit_request(
                    now,
                    RequestId(fresh),
                    requester,
                    legs@,
                    tenor,
                    response_deadline,
                );
                &&& w == done.venue
                &&& reply matches Reply::Request(answer)
                &&& match done.answer {
                    Ok(request) => answer matches Ok(r) && r@ == request,
                    Err(e) => answer matches Err(a) && a == e,
                }
            }
            &&& cmd matches Command::SubmitQuote {
                maker,
                request_id,
                leg_id,
                price,
                size,
                expires_at,
            } ==> {
                let done = v.submit_quote(
                    now,
                    QuoteId(fresh),
                    maker,
                    request_id,
                    leg_id,
                    price,
                    size,
                    expires_at,
                );
                w == done.venue && (reply matches Reply::Quote(answer) && answer == done.answer)
            }
        },
{
}

/// Requests are opened and read, and balances read, whatever the balances. Other commands are taken
/// exactly where what they ask for can be done; a credit, where the party's free balance and what
/// it was credited can hold it.
pub proof fn law_which_commands_are_taken(
    v: EngineModel,
    now: Timestamp,
    fresh: u128,
    cmd: Command,
)
    requires
        forall|p: u128| (#[trigger] v.ledger.row(PartyId(p))).fits(),
    ensures
        match cmd {
            Command::SubmitRequest { .. } | Command::GetRequest { .. }
            | Command::Balance { .. } => takes(v, now, fresh, cmd),
            Command::SubmitQuote { maker, request_id, leg_id, price, size, expires_at } => takes(
                v,
                now,
                fresh,
                cmd,
            ) <==> v.room_to_quote(
                now,
                QuoteId(fresh),
                maker,
                request_id,
                leg_id,
                price,
                size,
                expires_at,
            ),
            Command::CancelQuote { maker, quote_id } => takes(v, now, fresh, cmd)
                <==> v.room_to_cancel(maker, quote_id),
            Command::Reject { requester, request_id } => takes(v, now, fresh, cmd)
                <==> v.room_to_reject(requester, request_id),
            Command::Accept { requester, request_id } => takes(v, now, fresh, cmd) <==> v.accept(
                now,
                requester,
                request_id,
            ) is Some,
            Command::Resolve { request_id, outcome } => takes(v, now, fresh, cmd) <==> v.resolve(
                now,
                request_id,
                outcome,
            ) is Some,
            Command::Dispute { party, request_id } => takes(v, now, fresh, cmd) <==> v.dispute(
                now,
                party,
                request_id,
            ) is Some,
            Command::Tick { now: later } => takes(v, now, fresh, cmd) <==> v.tick(later) is Some,
            Command::Credit { party, amount } => takes(v, now, fresh, cmd) <==> v.ledger.account(
                party,
            ).free + amount.0 <= u64::MAX && match v.ledger.row(party).credited {
                Some(credited) => credited + amount.0 <= u64::MAX,
                None => true,
            },
        },
{
    if let Command::Credit { party, amount } = cmd {
        let after = v.ledger.credit(party, amount);
        assert(v.ledger.row(PartyId(party.0)).fits());
        if after.row(party).fits() {
            assert forall|p: u128| (#[trigger] after.row(PartyId(p))).fits() by {
                assert(v.ledger.row(PartyId(p)).fits());
            }
        } else {
            assert(!after.row(PartyId(party.0)).fits());
        }
    }
}

/// An identifier is unused for a new request if no request has it, and for a new quote if no quote
/// has it. Other commands add nothing.
pub proof fn law_which_identifiers_are_unused(v: EngineModel, fresh: u128, cmd: Command)
    requires
        v.wf(),
    ensures
        cmd is SubmitRequest ==> (unused(v, fresh, cmd) <==> forall|j: int|
            0 <= j < v.entries.len() ==> (#[trigger] v.entries[j]).request.id != RequestId(fresh)),
        cmd is SubmitQuote ==> (unused(v, fresh, cmd) <==> forall|k: int, l: int|
            0 <= k < v.entries.len() && 0 <= l < v.entries[k].request.quotes.len() ==> (
            #[trigger] v.entries[k].request.quotes[l]).id != QuoteId(fresh)),
        cmd !is SubmitRequest && cmd !is SubmitQuote ==> unused(v, fresh, cmd),
{
    course::law_requests_are_found(v, RequestId(fresh), 0);
    course::law_quotes_are_found(v, QuoteId(fresh), 0, 0);
}

/// A command that is not taken changes nothing, except that a clock has moved requests on up to
/// the first that cannot be. Identifiers are used up where some random one and all those next to it
/// are in use.
pub proof fn law_what_is_left_undone(v: EngineModel, cmd: Command, w: EngineModel)
    ensures
        cmd !is Tick && left_undone(v, cmd, w) ==> w == v,
        cmd matches Command::Tick { now } ==> (left_undone(v, cmd, w) ==> v.stops_at(now, w)),
        used_up(v, cmd) ==> exists|drawn: u128|
            {
                &&& #[trigger] ids::is_random(drawn)
                &&& forall|k: u64|
                    k < 0x4000_0000_0000_0000 ==> !unused(v, #[trigger] ids::neighbour(drawn, k), cmd)
            },
{
}

} // verus!
