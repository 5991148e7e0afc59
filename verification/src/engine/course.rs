//! The course of a request from its opening to its end, step by step.
use vstd::prelude::*;
use crate::domain::ids::{PartyId, QuoteId, RequestId};
use crate::domain::request;
use crate::domain::request::{Escrow, Leg, Quote, RequestModel};
use crate::domain::state;
use crate::domain::state::{LegSide, OracleOutcome, QuoteState, RequestState, Tenor};
use crate::engine::error::EngineError;
use crate::engine::model;
use crate::engine::model::{EngineModel, EntryModel};
use crate::engine::soundness::Owner;
use crate::engine::{keeps, laws, room, soundness, transitions};
use crate::{ledger, seqs};
use crate::time;
use crate::time::Timestamp;

verus! {

/// A request is found under its identifier, and nothing under an identifier that no request has.
pub proof fn law_requests_are_found(v: EngineModel, id: RequestId, i: int)
    requires
        v.wf(),
    ensures
        0 <= i < v.entries.len() && v.entries[i].request.id == id ==> v.find(id) == Some(i),
        v.find(id) is None <==> forall|j: int|
            0 <= j < v.entries.len() ==> (#[trigger] v.entries[j]).request.id != id,
{
    let named = |e: EntryModel| e.request.id == id;
    seqs::lemma_first_some(v.entries, named);
    if 0 <= i < v.entries.len() && v.entries[i].request.id == id {
        seqs::lemma_first_exists(v.entries, named, i);
    }
    assert forall|j: int|
        v.find(id) is None && 0 <= j < v.entries.len() implies (
    #[trigger] v.entries[j]).request.id != id by {
        if named(v.entries[j]) {
            seqs::lemma_first_exists(v.entries, named, j);
        }
    }
}

/// A quote is found under its identifier, on the request that it is for, and nothing under an
/// identifier that no quote has.
pub proof fn law_quotes_are_found(v: EngineModel, id: QuoteId, i: int, j: int)
    requires
        v.wf(),
    ensures
        0 <= i < v.entries.len() && 0 <= j < v.entries[i].request.quotes.len()
            && v.entries[i].request.quotes[j].id == id ==> v.find_quote(id) == Some(i)
            && v.entries[i].request.quote_index(id) == Some(j),
        v.find_quote(id) is None <==> forall|k: int, l: int|
            0 <= k < v.entries.len() && 0 <= l < v.entries[k].request.quotes.len() ==> (
            #[trigger] v.entries[k].request.quotes[l]).id != id,
{
    let named = |e: EntryModel| e.request.quote_index(id) is Some;
    keeps::lemma_quote_found(v, id);
    if 0 <= i < v.entries.len() && 0 <= j < v.entries[i].request.quotes.len()
        && v.entries[i].request.quotes[j].id == id {
        keeps::lemma_entry_sound(v, i);
        transitions::lemma_quote_index(v.entries[i].request, j);
        seqs::lemma_first_exists(v.entries, named, i);
    }
    assert forall|k: int, l: int|
        v.find_quote(id) is None && 0 <= k < v.entries.len() && 0 <= l
            < v.entries[k].request.quotes.len() implies (
    #[trigger] v.entries[k].request.quotes[l]).id != id by {
        if v.entries[k].request.quotes[l].id == id {
            seqs::lemma_first_exists(v.entries[k].request.quotes, |q: Quote| q.id == id, l);
            seqs::lemma_first_exists(v.entries, named, k);
        }
    }
    if v.find_quote(id) is Some {
        let k = v.find_quote(id)->Some_0;
        let l = v.entries[k].request.quote_index(id)->Some_0;
        assert(v.entries[k].request.quotes[l].id == id);
    }
}

/// An identifier is fresh for a request if no request has it, and for a quote if no quote has it.
pub proof fn law_which_identifiers_are_fresh(v: EngineModel, request_id: RequestId, quote_id: QuoteId)
    requires
        v.wf(),
    ensures
        keeps::request_id_fresh(v, request_id) <==> forall|j: int|
            0 <= j < v.entries.len() ==> (#[trigger] v.entries[j]).request.id != request_id,
        keeps::quote_id_fresh(v, quote_id) <==> forall|k: int, l: int|
            0 <= k < v.entries.len() && 0 <= l < v.entries[k].request.quotes.len() ==> (
            #[trigger] v.entries[k].request.quotes[l]).id != quote_id,
{
    law_requests_are_found(v, request_id, 0);
    law_quotes_are_found(v, quote_id, 0, 0);
}

/// A request is opened when its response deadline is still to come and within the horizon, the
/// accept window after it and its resolution are on the calendar, and it has a leg. It resolves
/// its tenor after its response deadline: five minutes, ten minutes, one hour or one day. It is
/// the last of the venue then, with no quotes; nothing else changes.
pub proof fn law_requests_resolve_a_tenor_after_their_deadline(
    v: EngineModel,
    now: Timestamp,
    id: RequestId,
    requester: PartyId,
    legs: Seq<Leg>,
    tenor: Tenor,
    response_deadline: Timestamp,
)
    requires
        response_deadline.valid(),
    ensures
        ({
            let done = v.submit_request(now, id, requester, legs, tenor, response_deadline);
            let seconds = match tenor {
                Tenor::FiveMinutes => 300int,
                Tenor::TenMinutes => 600int,
                Tenor::OneHour => 3_600int,
                Tenor::OneDay => 86_400int,
            };
            let ahead = now@ < response_deadline@;
            let within = {
                &&& now.plus(v.config.max_response_horizon) matches Some(horizon)
                &&& response_deadline@ <= horizon@
                &&& response_deadline.plus(v.config.accept_window) is Some
                &&& response_deadline.spec_secs() + seconds <= 8_210_266_876_799
            };
            &&& !ahead ==> done.answer == Err::<RequestModel, EngineError>(
                EngineError::DeadlineInPast,
            )
            &&& ahead && !within ==> done.answer == Err::<RequestModel, EngineError>(
                EngineError::DeadlineBeyondHorizon,
            )
            &&& ahead && within && legs.len() == 0 ==> done.answer == Err::<
                RequestModel,
                EngineError,
            >(EngineError::EmptyLegs)
            &&& ahead && within && legs.len() > 0 ==> done.answer is Ok
            &&& done.answer is Err ==> done.venue == v
            &&& done.answer matches Ok(request) ==> {
                &&& request.resolves_at.spec_secs() == response_deadline.spec_secs() + seconds
                &&& request.resolves_at.spec_nanos() == response_deadline.spec_nanos()
                    % 1_000_000_000
                &&& request.id == id
                &&& request.requester == requester
                &&& request.legs == legs
                &&& request.tenor == tenor
                &&& request.response_deadline == response_deadline
                &&& request.created_at == now
                &&& request.state == RequestState::Open
                &&& request.quotes.len() == 0
                &&& request.escrows.len() == 0
                &&& request.package is None
                &&& request.accept_deadline is None
                &&& request.reported_outcome is None
                &&& request.dispute_deadline is None
                &&& request.unwind_deadline is None
                &&& request.fail_reason is None
                &&& done.venue.ledger == v.ledger
                &&& done.venue.config == v.config
                &&& done.venue.next_seq == v.next_seq
                &&& done.venue.entries.len() == v.entries.len() + 1
                &&& forall|j: int|
                    0 <= j < v.entries.len() ==> #[trigger] done.venue.entries[j] == v.entries[j]
                &&& done.venue.entries.last().request == request
                &&& done.venue.entries.last().reservations.len() == 0
                &&& done.venue.entries.last().handles.len() == 0
            }
        }),
{
    state::law_tenors_in_seconds(tenor);
    let seconds = match tenor {
        Tenor::FiveMinutes => 300int,
        Tenor::TenMinutes => 600int,
        Tenor::OneHour => 3_600int,
        Tenor::OneDay => 86_400int,
    };
    time::law_seconds_move_the_second(response_deadline, seconds);
}

/// Two requests that differ in their tenor only resolve as many seconds apart as their tenors
/// differ by.
pub proof fn law_tenors_tell_resolutions_apart(
    v: EngineModel,
    now: Timestamp,
    id: RequestId,
    requester: PartyId,
    legs: Seq<Leg>,
    tenors: (Tenor, Tenor),
    response_deadline: Timestamp,
)
    requires
        response_deadline.valid(),
    ensures
        ({
            let seconds = |tenor: Tenor|
                match tenor {
                    Tenor::FiveMinutes => 300int,
                    Tenor::TenMinutes => 600int,
                    Tenor::OneHour => 3_600int,
                    Tenor::OneDay => 86_400int,
                };
            let one = v.submit_request(now, id, requester, legs, tenors.0, response_deadline);
            let two = v.submit_request(now, id, requester, legs, tenors.1, response_deadline);
            one.answer is Ok && two.answer is Ok ==> two.answer->Ok_0.resolves_at.spec_secs()
                - one.answer->Ok_0.resolves_at.spec_secs() == seconds(tenors.1) - seconds(tenors.0)
        }),
{
    law_requests_resolve_a_tenor_after_their_deadline(
        v,
        now,
        id,
        requester,
        legs,
        tenors.0,
        response_deadline,
    );
    law_requests_resolve_a_tenor_after_their_deadline(
        v,
        now,
        id,
        requester,
        legs,
        tenors.1,
        response_deadline,
    );
}

/// Whoever has a side of a leg in escrow may dispute a reported outcome, and nobody else may. The
/// request is then disputed, until the time for disputes is over where there is a limit; nothing
/// else changes. A dispute whose limit is off the calendar is not taken up. A party to a request
/// whose outcome is not reported is told so.
pub proof fn law_those_with_a_side_in_escrow_may_dispute(
    v: EngineModel,
    now: Timestamp,
    party: PartyId,
    i: int,
)
    requires
        v.wf(),
        0 <= i < v.entries.len(),
        v.entries[i].request.state == RequestState::Locked || v.entries[i].request.state
            == RequestState::Reported || v.entries[i].request.state == RequestState::Disputed
            || v.entries[i].request.state == RequestState::Settled || v.entries[i].request.state
            == RequestState::Unwound,
    ensures
        ({
            let before = v.entries[i];
            let done = v.dispute(now, party, before.request.id);
            let has_a_side = exists|l: int|
                0 <= l < before.request.escrows.len() && ((
                #[trigger] before.request.escrows[l]).yes_buyer == party
                    || before.request.escrows[l].yes_seller == party);
            let deadline = match v.config.unwind_timeout {
                Some(timeout) => now.plus(timeout),
                None => None,
            };
            &&& !has_a_side ==> (done matches Some(done) && done.venue == v && done.answer
                == Err::<RequestModel, EngineError>(EngineError::NotOwner))
            &&& has_a_side && before.request.state != RequestState::Reported ==> (done matches Some(
                done,
            ) && done.venue == v && done.answer == Err::<RequestModel, EngineError>(
                EngineError::WrongState {
                    expected: RequestState::Reported,
                    actual: before.request.state,
                },
            ))
            &&& has_a_side && before.request.state == RequestState::Reported ==> {
                &&& done is None <==> v.config.unwind_timeout is Some && deadline is None
                &&& done matches Some(done) ==> {
                    let after = done.venue.entries[i];
                    &&& done.answer == Ok::<RequestModel, EngineError>(after.request)
                    &&& after.request == (RequestModel {
                        state: RequestState::Disputed,
                        unwind_deadline: deadline,
                        ..before.request
                    })
                    &&& after.reservations == before.reservations
                    &&& after.handles == before.handles
                    &&& done.venue.ledger == v.ledger
                    &&& done.venue.config == v.config
                    &&& done.venue.next_seq == v.next_seq
                    &&& done.venue.entries == v.entries.update(i, after)
                }
            }
        }),
{
    let e = v.entries[i];
    law_requests_are_found(v, e.request.id, i);
    keeps::lemma_entry_sound(v, i);
    let has_a_side = exists|l: int|
        0 <= l < e.request.escrows.len() && ((#[trigger] e.request.escrows[l]).yes_buyer == party
            || e.request.escrows[l].yes_seller == party);
    if e.is_party(party) {
        if party == e.request.requester {
            assert(e.quoted(0));
            let j = choose|j: int| 0 <= j < e.request.quotes.len() && #[trigger] e.locked_for(j, 0);
            let escrow = e.request.escrows[0];
            assert(escrow.yes_buyer == party || escrow.yes_seller == party);
        } else {
            let j = choose|j: int|
                0 <= j < e.request.quotes.len() && (#[trigger] e.request.quotes[j]).maker == party
                    && e.request.quotes[j].state is Locked;
            assert(e.placed(j));
            let l = choose|l: int|
                0 <= l < e.request.escrows.len() && #[trigger] e.locked_for(j, l);
            let escrow = e.request.escrows[l];
            assert(escrow.yes_buyer == party || escrow.yes_seller == party);
        }
    }
    if has_a_side {
        let l = choose|l: int|
            0 <= l < e.request.escrows.len() && ((#[trigger] e.request.escrows[l]).yes_buyer
                == party || e.request.escrows[l].yes_seller == party);
        assert(e.quoted(l));
        let j = choose|j: int| 0 <= j < e.request.quotes.len() && #[trigger] e.locked_for(j, l);
        assert(e.request.quotes[j].maker == party || e.request.requester == party);
        assert(e.is_party(party));
    }
}

/// Before anything is in escrow only the requester is a party to a request, and there is nothing
/// to dispute.
pub proof fn law_nothing_to_dispute_without_escrow(
    v: EngineModel,
    now: Timestamp,
    party: PartyId,
    i: int,
)
    requires
        v.wf(),
        0 <= i < v.entries.len(),
        v.entries[i].request.state == RequestState::Open || v.entries[i].request.state
            == RequestState::Presented || v.entries[i].request.state == RequestState::Failed,
    ensures
        ({
            let request = v.entries[i].request;
            &&& request.escrows.len() == 0
            &&& v.dispute(now, party, request.id) matches Some(done) && done.venue == v
                && done.answer == Err::<RequestModel, EngineError>(
                if party == request.requester {
                    EngineError::WrongState {
                        expected: RequestState::Reported,
                        actual: request.state,
                    }
                } else {
                    EngineError::NotOwner
                },
            )
        }),
{
    let e = v.entries[i];
    law_requests_are_found(v, e.request.id, i);
    keeps::lemma_entry_sound(v, i);
    assert forall|j: int| 0 <= j < e.request.quotes.len() implies (
    #[trigger] e.request.quotes[j]).state !is Locked by {
        assert(soundness::states_agree(e.request.state, e.request.quotes[j].state));
    }
}

/// An outcome that decides a locked request is reported under a dispute window: the request keeps
/// the very outcome that the oracle gave, until the window is over. Nothing else changes. A window
/// that ends off the calendar cannot be begun.
pub proof fn law_reports_keep_the_given_outcome(
    v: EngineModel,
    now: Timestamp,
    i: int,
    outcome: OracleOutcome,
)
    requires
        v.wf(),
        0 <= i < v.entries.len(),
        v.entries[i].request.state == RequestState::Locked,
        v.config.dispute_window is Some,
        outcome == OracleOutcome::Yes || outcome == OracleOutcome::No,
    ensures
        ({
            let before = v.entries[i];
            let done = v.resolve(now, before.request.id, outcome);
            let deadline = now.plus(v.config.dispute_window->Some_0);
            &&& done is None <==> deadline is None
            &&& done matches Some(done) ==> {
                let after = done.venue.entries[i];
                &&& done.answer == Ok::<RequestModel, EngineError>(after.request)
                &&& after.request == (RequestModel {
                    state: RequestState::Reported,
                    reported_outcome: Some(outcome),
                    dispute_deadline: deadline,
                    ..before.request
                })
                &&& after.reservations == before.reservations
                &&& after.handles == before.handles
                &&& done.venue.ledger == v.ledger
                &&& done.venue.config == v.config
                &&& done.venue.next_seq == v.next_seq
                &&& done.venue.entries == v.entries.update(i, after)
            }
        }),
{
    law_requests_are_found(v, v.entries[i].request.id, i);
}

/// An outcome that decides a locked request pays out at once where there is no dispute window, and
/// one that decides a disputed request in any case: each leg's notional goes to its Yes-buyer on
/// Yes and to its Yes-seller on No, and what the parties put up is out of escrow. The request is
/// settled then, and nothing else changes. It is not paid while two legs have one identifier; else
/// it is wherever all that was ever credited is an amount, and so would be all that a party has
/// paid or received if everything in escrow were paid by it or to it.
pub proof fn law_outcomes_pay_the_notionals(
    v: EngineModel,
    now: Timestamp,
    i: int,
    outcome: OracleOutcome,
    party: PartyId,
)
    requires
        v.wf(),
        0 <= i < v.entries.len(),
        v.entries[i].request.state == RequestState::Locked && v.config.dispute_window is None
            || v.entries[i].request.state == RequestState::Disputed,
        outcome == OracleOutcome::Yes || outcome == OracleOutcome::No,
    ensures
        ({
            let before = v.entries[i];
            let request = before.request;
            let done = v.resolve(now, request.id, outcome);
            let distinct = forall|a: int, b: int|
                0 <= a < b < request.legs.len() ==> (#[trigger] request.legs[a]).id != (
                #[trigger] request.legs[b]).id;
            let ample = {
                &&& v.ledger.credited_total() <= u64::MAX
                &&& forall|p: u128|
                    {
                        let row = #[trigger] v.ledger.row(PartyId(p));
                        &&& row.fits()
                        &&& row.paid_to_others + v.ledger.escrowed_total() <= u64::MAX
                        &&& row.received_from_others + v.ledger.escrowed_total() <= u64::MAX
                    }
            };
            &&& done is Some ==> distinct
            &&& distinct && ample ==> done is Some
            &&& done matches Some(done) ==> {
                let after = done.venue.entries[i];
                let old_account = v.ledger.account(party);
                let account = done.venue.ledger.account(party);
                &&& done.answer == Ok::<RequestModel, EngineError>(after.request)
                &&& after.request == (RequestModel { state: RequestState::Settled, ..request })
                &&& after.reservations == before.reservations
                &&& after.handles.len() == 0
                &&& done.venue.config == v.config
                &&& done.venue.next_seq == v.next_seq
                &&& done.venue.entries == v.entries.update(i, after)
                &&& account.reserved == old_account.reserved
                &&& account.free == old_account.free + seqs::sum_by(
                    request.escrows,
                    |escrow: Escrow|
                        if outcome == OracleOutcome::Yes && escrow.yes_buyer == party || outcome
                            == OracleOutcome::No && escrow.yes_seller == party {
                            escrow.notional.0 as int
                        } else {
                            0
                        },
                )
                &&& account.escrowed == old_account.escrowed - seqs::sum_by(
                    request.escrows,
                    |escrow: Escrow|
                        (if escrow.yes_buyer == party {
                            escrow.yes_buyer_amount.0 as int
                        } else {
                            0
                        }) + (if escrow.yes_seller == party {
                            escrow.yes_seller_amount.0 as int
                        } else {
                            0
                        }),
                )
            }
        }),
{
    let e = v.entries[i];
    law_requests_are_found(v, e.request.id, i);
    if ledger::laws::ample(v.ledger) && e.traceable() {
        room::lemma_ample_to_settle(e, v.ledger, outcome);
    }
    lemma_paid_out(v, i, outcome, party);
}

/// What paying out a request makes of a party's balances.
pub proof fn lemma_paid_out(v: EngineModel, i: int, outcome: OracleOutcome, party: PartyId)
    requires
        v.wf(),
        0 <= i < v.entries.len(),
        v.entries[i].in_escrow(),
        outcome == OracleOutcome::Yes || outcome == OracleOutcome::No,
    ensures
        ({
            let request = v.entries[i].request;
            let old_account = v.ledger.account(party);
            let account = v.entries[i].settle_holds(v.ledger, outcome).account(party);
            &&& account.reserved == old_account.reserved
            &&& account.free == old_account.free + seqs::sum_by(
                request.escrows,
                |escrow: Escrow|
                    if outcome == OracleOutcome::Yes && escrow.yes_buyer == party || outcome
                        == OracleOutcome::No && escrow.yes_seller == party {
                        escrow.notional.0 as int
                    } else {
                        0
                    },
            )
            &&& account.escrowed == old_account.escrowed - seqs::sum_by(
                request.escrows,
                |escrow: Escrow|
                    (if escrow.yes_buyer == party {
                        escrow.yes_buyer_amount.0 as int
                    } else {
                        0
                    }) + (if escrow.yes_seller == party {
                        escrow.yes_seller_amount.0 as int
                    } else {
                        0
                    }),
            )
        }),
{
    let e = v.entries[i];
    let escrows = e.request.escrows;
    let n = escrows.len() as int;
    let owners = choose|owners: Seq<Owner>| v.owned(owners);
    assert(e.inv(v.ledger.slots, owners, i, v.config, v.next_seq));
    assert(escrows.take(n) =~= escrows);
    laws::lemma_pay_legs_balances(e, v.ledger, owners, i, outcome, n, party);
    seqs::lemma_sum_same(
        escrows,
        |escrow: Escrow|
            if model::winner(escrow, outcome) == party {
                escrow.notional.0 as int
            } else {
                0
            },
        escrows,
        |escrow: Escrow|
            if outcome == OracleOutcome::Yes && escrow.yes_buyer == party || outcome
                == OracleOutcome::No && escrow.yes_seller == party {
                escrow.notional.0 as int
            } else {
                0
            },
    );
    seqs::lemma_sum_same(
        escrows,
        |escrow: Escrow| laws::put_up(escrow, party),
        escrows,
        |escrow: Escrow|
            (if escrow.yes_buyer == party {
                escrow.yes_buyer_amount.0 as int
            } else {
                0
            }) + (if escrow.yes_seller == party {
                escrow.yes_seller_amount.0 as int
            } else {
                0
            }),
    );
}

/// What refunding a request makes of a party's balances.
pub proof fn lemma_refunded(v: EngineModel, i: int, party: PartyId)
    requires
        v.wf(),
        0 <= i < v.entries.len(),
        v.entries[i].in_escrow(),
    ensures
        ({
            let request = v.entries[i].request;
            let old_account = v.ledger.account(party);
            let account = v.entries[i].unwind_holds(v.ledger).account(party);
            let stake = seqs::sum_by(
                    request.escrows,
                    |escrow: Escrow|
                        (if escrow.yes_buyer == party {
                            escrow.yes_buyer_amount.0 as int
                        } else {
                            0
                        }) + (if escrow.yes_seller == party {
                            escrow.yes_seller_amount.0 as int
                        } else {
                            0
                        }),
                );
            &&& account.reserved == old_account.reserved
            &&& account.free == old_account.free + stake
            &&& account.escrowed == old_account.escrowed - stake
        }),
{
    let e = v.entries[i];
    let escrows = e.request.escrows;
    let n = escrows.len() as int;
    let owners = choose|owners: Seq<Owner>| v.owned(owners);
    assert(e.inv(v.ledger.slots, owners, i, v.config, v.next_seq));
    assert(escrows.take(n) =~= escrows);
    laws::lemma_refund_legs_balances(e, v.ledger, owners, i, n, party);
    seqs::lemma_sum_same(
        escrows,
        |escrow: Escrow| laws::put_up(escrow, party),
        escrows,
        |escrow: Escrow|
            (if escrow.yes_buyer == party {
                escrow.yes_buyer_amount.0 as int
            } else {
                0
            }) + (if escrow.yes_seller == party {
                escrow.yes_seller_amount.0 as int
            } else {
                0
            }),
    );
}

/// An invalid outcome unwinds a locked or disputed request: every party gets back just what it put
/// up. The request is unwound then, and nothing else changes. It is not while two legs have one
/// identifier; else it is wherever there is ample room.
pub proof fn law_invalid_outcomes_refund_what_was_put_up(
    v: EngineModel,
    now: Timestamp,
    i: int,
    party: PartyId,
)
    requires
        v.wf(),
        0 <= i < v.entries.len(),
        v.entries[i].request.state == RequestState::Locked || v.entries[i].request.state
            == RequestState::Disputed,
    ensures
        ({
            let before = v.entries[i];
            let request = before.request;
            let done = v.resolve(now, request.id, OracleOutcome::Invalid);
            let distinct = forall|a: int, b: int|
                0 <= a < b < request.legs.len() ==> (#[trigger] request.legs[a]).id != (
                #[trigger] request.legs[b]).id;
            let ample = {
                &&& v.ledger.credited_total() <= u64::MAX
                &&& forall|p: u128|
                    {
                        let row = #[trigger] v.ledger.row(PartyId(p));
                        &&& row.fits()
                        &&& row.paid_to_others + v.ledger.escrowed_total() <= u64::MAX
                        &&& row.received_from_others + v.ledger.escrowed_total() <= u64::MAX
                    }
            };
            &&& done is Some ==> distinct
            &&& distinct && ample ==> done is Some
            &&& done matches Some(done) ==> {
                let after = done.venue.entries[i];
                let old_account = v.ledger.account(party);
                let account = done.venue.ledger.account(party);
                let stake = seqs::sum_by(
                    request.escrows,
                    |escrow: Escrow|
                        (if escrow.yes_buyer == party {
                            escrow.yes_buyer_amount.0 as int
                        } else {
                            0
                        }) + (if escrow.yes_seller == party {
                            escrow.yes_seller_amount.0 as int
                        } else {
                            0
                        }),
                );
                &&& done.answer == Ok::<RequestModel, EngineError>(after.request)
                &&& after.request == (RequestModel { state: RequestState::Unwound, ..request })
                &&& after.reservations == before.reservations
                &&& after.handles.len() == 0
                &&& done.venue.config == v.config
                &&& done.venue.next_seq == v.next_seq
                &&& done.venue.entries == v.entries.update(i, after)
                &&& account.reserved == old_account.reserved
                &&& account.free == old_account.free + stake
                &&& account.escrowed == old_account.escrowed - stake
            }
        }),
{
    let e = v.entries[i];
    law_requests_are_found(v, e.request.id, i);
    if ledger::laws::ample(v.ledger) {
        room::lemma_ample_to_unwind(e, v.ledger);
    }
    lemma_refunded(v, i, party);
}

/// A locked request of which the oracle says that its outcome is disputed is disputed, until the
/// time for disputes is over where there is a limit; one that is disputed already stays so. No
/// money moves.
pub proof fn law_disputed_outcomes_open_a_dispute(v: EngineModel, now: Timestamp, i: int)
    requires
        v.wf(),
        0 <= i < v.entries.len(),
        v.entries[i].request.state == RequestState::Locked || v.entries[i].request.state
            == RequestState::Disputed,
    ensures
        ({
            let before = v.entries[i];
            let done = v.resolve(now, before.request.id, OracleOutcome::Disputed);
            let deadline = match v.config.unwind_timeout {
                Some(timeout) => now.plus(timeout),
                None => None,
            };
            &&& before.request.state == RequestState::Disputed ==> (done matches Some(done)
                && done.venue == v && done.answer == Ok::<RequestModel, EngineError>(
                before.request,
            ))
            &&& before.request.state == RequestState::Locked ==> {
                &&& done is None <==> v.config.unwind_timeout is Some && deadline is None
                &&& done matches Some(done) ==> {
                    let after = done.venue.entries[i];
                    &&& done.answer == Ok::<RequestModel, EngineError>(after.request)
                    &&& after.request == (RequestModel {
                        state: RequestState::Disputed,
                        unwind_deadline: deadline,
                        ..before.request
                    })
                    &&& after.reservations == before.reservations
                    &&& after.handles == before.handles
                    &&& done.venue.ledger == v.ledger
                    &&& done.venue.config == v.config
                    &&& done.venue.next_seq == v.next_seq
                    &&& done.venue.entries == v.entries.update(i, after)
                }
            }
        }),
{
    law_requests_are_found(v, v.entries[i].request.id, i);
}

/// An outcome for a request that is neither locked nor disputed is refused, and changes nothing.
pub proof fn law_outcomes_are_for_locked_and_disputed_requests(
    v: EngineModel,
    now: Timestamp,
    i: int,
    outcome: OracleOutcome,
)
    requires
        v.wf(),
        0 <= i < v.entries.len(),
        v.entries[i].request.state != RequestState::Locked,
        v.entries[i].request.state != RequestState::Disputed,
    ensures
        v.resolve(now, v.entries[i].request.id, outcome) matches Some(done) && done.venue == v
            && done.answer == Err::<RequestModel, EngineError>(
            EngineError::WrongState {
                expected: RequestState::Locked,
                actual: v.entries[i].request.state,
            },
        ),
{
    law_requests_are_found(v, v.entries[i].request.id, i);
}

/// An outcome that is reported and not disputed pays out as it was given: the clock that finds the
/// window over pays each leg's notional to its Yes-buyer if the oracle said Yes and to its
/// Yes-seller if it said No.
pub proof fn law_undisputed_reports_pay_as_given(
    v: EngineModel,
    now: Timestamp,
    later: Timestamp,
    i: int,
    outcome: OracleOutcome,
    party: PartyId,
)
    requires
        v.wf(),
        0 <= i < v.entries.len(),
        v.entries[i].request.state == RequestState::Locked,
        v.config.dispute_window matches Some(window) && (now.plus(window) matches Some(deadline)
            && later@ > deadline@),
        outcome == OracleOutcome::Yes || outcome == OracleOutcome::No,
    ensures
        ({
            let request = v.entries[i].request;
            let reported = v.resolve(now, request.id, outcome);
            let distinct = forall|a: int, b: int|
                0 <= a < b < request.legs.len() ==> (#[trigger] request.legs[a]).id != (
                #[trigger] request.legs[b]).id;
            let ample = {
                &&& v.ledger.credited_total() <= u64::MAX
                &&& forall|p: u128|
                    {
                        let row = #[trigger] v.ledger.row(PartyId(p));
                        &&& row.fits()
                        &&& row.paid_to_others + v.ledger.escrowed_total() <= u64::MAX
                        &&& row.received_from_others + v.ledger.escrowed_total() <= u64::MAX
                    }
            };
            &&& reported is Some
            &&& reported->Some_0.venue.tick_entry(later, i) is Some ==> distinct
            &&& distinct && ample ==> reported->Some_0.venue.tick_entry(later, i) is Some
            &&& reported->Some_0.venue.tick_entry(later, i) matches Some(w) ==> {
                let after = w.entries[i];
                let old_account = v.ledger.account(party);
                let account = w.ledger.account(party);
                &&& after.request.state == RequestState::Settled
                &&& after.request.escrows == request.escrows
                &&& account.reserved == old_account.reserved
                &&& account.free == old_account.free + seqs::sum_by(
                    request.escrows,
                    |escrow: Escrow|
                        if outcome == OracleOutcome::Yes && escrow.yes_buyer == party || outcome
                            == OracleOutcome::No && escrow.yes_seller == party {
                            escrow.notional.0 as int
                        } else {
                            0
                        },
                )
                &&& account.escrowed == old_account.escrowed - seqs::sum_by(
                    request.escrows,
                    |escrow: Escrow|
                        (if escrow.yes_buyer == party {
                            escrow.yes_buyer_amount.0 as int
                        } else {
                            0
                        }) + (if escrow.yes_seller == party {
                            escrow.yes_seller_amount.0 as int
                        } else {
                            0
                        }),
                )
            }
        }),
{
    let e = v.entries[i];
    law_reports_keep_the_given_outcome(v, now, i, outcome);
    keeps::lemma_resolve_wf(v, now, e.request.id, outcome);
    let w = v.resolve(now, e.request.id, outcome)->Some_0.venue;
    if ledger::laws::ample(v.ledger) && e.traceable() {
        room::lemma_ample_to_settle(w.entries[i], w.ledger, outcome);
    }
    lemma_paid_out(w, i, outcome, party);
}

/// What is in escrow is for the requests that are locked, reported or disputed, and is the
/// notionals of their legs: that is what it means that the two match.
pub proof fn law_escrow_is_for_requests_in_progress(v: EngineModel)
    ensures
        v.escrow_matches() <==> v.ledger.escrowed_total() == seqs::sum_by(
            v.entries,
            |e: EntryModel|
                if e.request.state == RequestState::Locked || e.request.state
                    == RequestState::Reported || e.request.state == RequestState::Disputed {
                    seqs::sum_by(e.request.escrows, |escrow: Escrow| escrow.notional.0 as int)
                } else {
                    0
                },
        ),
{
    seqs::lemma_sum_same(
        v.entries,
        |e: EntryModel| e.escrow_due(),
        v.entries,
        |e: EntryModel|
            if e.request.state == RequestState::Locked || e.request.state
                == RequestState::Reported || e.request.state == RequestState::Disputed {
                seqs::sum_by(e.request.escrows, |escrow: Escrow| escrow.notional.0 as int)
            } else {
                0
            },
    );
}

/// As long as there is an escrow for a leg it is between the requester and the maker of a locked
/// quote on that leg, for the notional of the first leg with its identifier: the requester is the
/// Yes-buyer if it ends up long Yes and the Yes-seller if not, and the Yes-buyer's part is its
/// share of the notional at the quote's price.
pub proof fn law_escrows_stand_between_requester_and_maker(v: EngineModel, i: int, l: int)
    requires
        v.wf(),
        0 <= i < v.entries.len(),
        0 <= l < v.entries[i].request.escrows.len(),
    ensures
        ({
            let request = v.entries[i].request;
            let escrow = request.escrows[l];
            let leg = request.legs[request.leg_index(request.legs[l].id)->Some_0];
            let long = leg.side == LegSide::BuyYes || leg.side == LegSide::SellNo;
            &&& request.escrows.len() == request.legs.len()
            &&& escrow.leg_id == request.legs[l].id
            &&& escrow.notional == leg.notional
            &&& exists|j: int|
                {
                    &&& 0 <= j < request.quotes.len()
                    &&& (#[trigger] request.quotes[j]).state == QuoteState::Locked
                    &&& request.quotes[j].leg_id == request.legs[l].id
                    &&& request.quotes[j].maker != request.requester
                    &&& escrow.yes_buyer == if long {
                        request.requester
                    } else {
                        request.quotes[j].maker
                    }
                    &&& escrow.yes_seller == if long {
                        request.quotes[j].maker
                    } else {
                        request.requester
                    }
                    &&& escrow.yes_buyer_amount.0 == leg.notional.0 as int
                        * request.quotes[j].price.spec_bps() / 10_000
                    &&& escrow.yes_seller_amount.0 == leg.notional.0 - escrow.yes_buyer_amount.0
                }
        }),
{
    let e = v.entries[i];
    keeps::lemma_entry_sound(v, i);
    assert(e.quoted(l));
    let j = choose|j: int| 0 <= j < e.request.quotes.len() && #[trigger] e.locked_for(j, l);
    let quote = e.request.quotes[j];
    request::law_roles_and_sides_of_an_escrow(
        e.named_leg(l),
        quote,
        e.request.requester,
        quote.maker,
    );
}

} // verus!
