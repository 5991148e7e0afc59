//! How much room moves need, and what they leave in the records, to the unit.
use vstd::prelude::*;
use crate::domain::ids::{LegId, PartyId, QuoteId, RequestId, SeqNo};
use crate::domain::money::{Amount, Price};
use crate::domain::request;
use crate::domain::request::{Escrow, Quote, Selection};
use crate::domain::state::{LegSide, OracleOutcome, QuoteState, RequestState};
use crate::engine::model;
use crate::engine::model::{EngineConfig, EngineModel, EntryModel, Scope};
use crate::engine::soundness::Owner;
use crate::engine::{course, deals, keeps, laws, room, ticks, transitions};
use crate::ledger::{LedgerModel, LockItem, Move, Slot};
use crate::time::Timestamp;
use crate::{ledger, seqs};

verus! {

/// Whether nobody has less free, more reserved or in escrow, or less on its records.
spec fn let_out(m: LedgerModel, n: LedgerModel) -> bool {
    forall|p: u128|
        {
            let before = m.row(PartyId(p));
            let after = #[trigger] n.row(PartyId(p));
            &&& 0 <= before.account.free <= after.account.free
            &&& 0 <= after.account.reserved <= before.account.reserved
            &&& 0 <= after.account.escrowed <= before.account.escrowed
            &&& after.credited == before.credited
            &&& 0 <= before.paid_to_others <= after.paid_to_others
            &&& 0 <= before.received_from_others <= after.received_from_others
        }
}

/// A release, payout or refund lets funds out.
proof fn lemma_lets_out(m: LedgerModel, way: Move)
    requires
        m.wf(),
        way !is Lock,
    ensures
        m.step(way).wf(),
        let_out(m, m.step(way)),
{
    let n = m.step(way);
    match way {
        Move::Release(id) => {
            ledger::laws::lemma_release_wf(m, id);
        },
        Move::Payout(handle, to) => {
            ledger::laws::lemma_payout_wf(m, handle, to);
        },
        Move::Refund(handle) => {
            ledger::laws::lemma_refund_wf(m, handle);
        },
        Move::Lock(item) => {},
    }
    assert forall|p: u128|
        {
            let before = m.row(PartyId(p));
            let after = #[trigger] n.row(PartyId(p));
            &&& 0 <= before.account.free <= after.account.free
            &&& 0 <= after.account.reserved <= before.account.reserved
            &&& 0 <= after.account.escrowed <= before.account.escrowed
            &&& after.credited == before.credited
            &&& 0 <= before.paid_to_others <= after.paid_to_others
            &&& 0 <= before.received_from_others <= after.received_from_others
        } by {
        assert(m.row_ok(PartyId(p)));
        assert(n.row_ok(PartyId(p)));
        ledger::laws::law_balances_are_within_the_credits(n, PartyId(p));
        ledger::laws::law_balances_are_within_the_credits(m, PartyId(p));
        match way {
            Move::Release(id) => {
                ledger::effects::law_release_moves_reserved_to_free(m, id, PartyId(p));
            },
            Move::Payout(handle, to) => {
                ledger::effects::law_payout_moves_escrow_to_the_payee(m, handle, to, PartyId(p));
            },
            Move::Refund(handle) => {
                ledger::effects::law_refund_moves_escrow_to_its_poster(m, handle, PartyId(p));
            },
            Move::Lock(item) => {},
        }
    }
}

/// Moves that each let funds out do so together.
proof fn lemma_lets_out_all(m: LedgerModel, moves: Seq<Move>)
    requires
        m.wf(),
        forall|j: int| 0 <= j < moves.len() ==> (#[trigger] moves[j]) !is Lock,
    ensures
        m.run(moves).wf(),
        let_out(m, m.run(moves)),
    decreases moves.len(),
{
    let n = m.run(moves);
    if moves.len() == 0 {
        assert forall|p: u128|
            {
                let before = m.row(PartyId(p));
                let after = #[trigger] n.row(PartyId(p));
                &&& 0 <= before.account.free <= after.account.free
                &&& 0 <= after.account.reserved <= before.account.reserved
                &&& 0 <= after.account.escrowed <= before.account.escrowed
                &&& after.credited == before.credited
                &&& 0 <= before.paid_to_others <= after.paid_to_others
                &&& 0 <= before.received_from_others <= after.received_from_others
            } by {
            assert(m.row_ok(PartyId(p)));
            ledger::laws::law_balances_are_within_the_credits(m, PartyId(p));
        }
    } else {
        let rest = moves.drop_last();
        assert forall|j: int| 0 <= j < rest.len() implies (#[trigger] rest[j]) !is Lock by {
            assert(rest[j] == moves[j]);
        }
        lemma_lets_out_all(m, rest);
        let r = m.run(rest);
        assert(moves.last() !is Lock);
        lemma_lets_out(r, moves.last());
        assert forall|p: u128|
            {
                let before = m.row(PartyId(p));
                let after = #[trigger] n.row(PartyId(p));
                &&& 0 <= before.account.free <= after.account.free
                &&& 0 <= after.account.reserved <= before.account.reserved
                &&& 0 <= after.account.escrowed <= before.account.escrowed
                &&& after.credited == before.credited
                &&& 0 <= before.paid_to_others <= after.paid_to_others
                &&& 0 <= before.received_from_others <= after.received_from_others
            } by {
            let between = r.row(PartyId(p));
        }
    }
}

/// There is room for moves that let funds out exactly if everything fits once they are made.
proof fn lemma_room_to_let_out(m: LedgerModel, moves: Seq<Move>)
    requires
        m.wf(),
        m.fits(),
        forall|j: int| 0 <= j < moves.len() ==> (#[trigger] moves[j]) !is Lock,
    ensures
        m.run(moves).wf(),
        let_out(m, m.run(moves)),
        m.has_room(moves) <==> m.run(moves).fits(),
    decreases moves.len(),
{
    lemma_lets_out_all(m, moves);
    if moves.len() > 0 {
        let rest = moves.drop_last();
        assert forall|j: int| 0 <= j < rest.len() implies (#[trigger] rest[j]) !is Lock by {
            assert(rest[j] == moves[j]);
        }
        lemma_room_to_let_out(m, rest);
        let r = m.run(rest);
        let n = m.run(moves);
        assert(moves.last() !is Lock);
        lemma_lets_out(r, moves.last());
        if n.fits() {
            assert forall|p: u128| (#[trigger] r.row(PartyId(p))).fits() by {
                assert(m.row(PartyId(p)).fits());
                assert(n.row(PartyId(p)).fits());
            }
        }
    }
}

/// What paying out the first `n` legs leaves in the records of a party.
proof fn lemma_pay_legs_records(
    e: EntryModel,
    m: LedgerModel,
    owners: Seq<Owner>,
    k: int,
    outcome: OracleOutcome,
    n: int,
    party: PartyId,
)
    requires
        m.wf(),
        transitions::escrow_backed(e, m.slots, owners, k),
        e.escrows_ok(),
        e.handles.len() == e.request.escrows.len(),
        0 <= n <= e.handles.len(),
    ensures
        ({
            let paid = model::pay_legs(m, e.request.escrows, e.handles, outcome, n);
            &&& paid.row(party).paid_to_others == m.row(party).paid_to_others + seqs::sum_by(
                e.request.escrows.take(n),
                |escrow: Escrow|
                    if outcome == OracleOutcome::Yes && escrow.yes_seller == party {
                        escrow.yes_seller_amount.0 as int
                    } else if outcome != OracleOutcome::Yes && escrow.yes_buyer == party {
                        escrow.yes_buyer_amount.0 as int
                    } else {
                        0
                    },
            )
            &&& paid.row(party).received_from_others == m.row(party).received_from_others
                + seqs::sum_by(
                    e.request.escrows.take(n),
                    |escrow: Escrow|
                        if outcome == OracleOutcome::Yes && escrow.yes_buyer == party {
                            escrow.yes_seller_amount.0 as int
                        } else if outcome != OracleOutcome::Yes && escrow.yes_seller == party {
                            escrow.yes_buyer_amount.0 as int
                        } else {
                            0
                        },
                )
            &&& paid.row(party).credited == m.row(party).credited
        }),
    decreases n,
{
    let escrows = e.request.escrows;
    let lost = |escrow: Escrow|
                    if outcome == OracleOutcome::Yes && escrow.yes_seller == party {
                        escrow.yes_seller_amount.0 as int
                    } else if outcome != OracleOutcome::Yes && escrow.yes_buyer == party {
                        escrow.yes_buyer_amount.0 as int
                    } else {
                        0
                    };
    let got = |escrow: Escrow|
                    if outcome == OracleOutcome::Yes && escrow.yes_buyer == party {
                        escrow.yes_seller_amount.0 as int
                    } else if outcome != OracleOutcome::Yes && escrow.yes_seller == party {
                        escrow.yes_buyer_amount.0 as int
                    } else {
                        0
                    };
    if n == 0 {
        assert(escrows.take(0).len() == 0);
    } else {
        let rest = model::pay_legs(m, escrows, e.handles, outcome, n - 1);
        lemma_pay_legs_records(e, m, owners, k, outcome, n - 1, party);
        transitions::lemma_pay_legs(e, m, owners, k, outcome, n - 1);
        let escrow = escrows[n - 1];
        let handles = e.handles[n - 1];
        let to = model::winner(escrow, outcome);
        assert(escrow.yes_buyer != escrow.yes_seller);
        assert(e.chunks_held(m.slots, owners, k, n - 1));
        assert(rest.slots[handles.yes_buyer.0 as int] == m.slots[handles.yes_buyer.0 as int]);
        assert(rest.slots[handles.yes_seller.0 as int] == m.slots[handles.yes_seller.0 as int]);
        let half = rest.payout(handles.yes_buyer, to);
        ledger::effects::law_payout_moves_escrow_to_the_payee(rest, handles.yes_buyer, to, party);
        assert(half.slots =~= rest.slots.update(handles.yes_buyer.0 as int, Slot::Spent));
        ledger::effects::law_payout_moves_escrow_to_the_payee(half, handles.yes_seller, to, party);
        seqs::lemma_sum_take(escrows, lost, n - 1);
        seqs::lemma_sum_take(escrows, got, n - 1);
    }
}

/// A request can be paid out exactly if every party has room for what it wins, and the records have
/// room for what it pays to others and receives from them.
proof fn lemma_room_to_settle(v: EngineModel, i: int, outcome: OracleOutcome)
    requires
        v.wf(),
        forall|p: u128| (#[trigger] v.ledger.row(PartyId(p))).fits(),
        0 <= i < v.entries.len(),
        v.entries[i].in_escrow(),
        outcome == OracleOutcome::Yes || outcome == OracleOutcome::No,
    ensures
        ({
            let request = v.entries[i].request;
            let roomy = forall|p: u128|
                {
                    let row = #[trigger] v.ledger.row(PartyId(p));
                    &&& row.account.free + seqs::sum_by(
                        request.escrows,
                        |escrow: Escrow|
                            if outcome == OracleOutcome::Yes && escrow.yes_buyer == PartyId(p)
                                || outcome == OracleOutcome::No && escrow.yes_seller
                                == PartyId(p) {
                                escrow.notional.0 as int
                            } else {
                                0
                            },
                    ) <= u64::MAX
                    &&& row.paid_to_others + seqs::sum_by(
                        request.escrows,
                        |escrow: Escrow|
                            if outcome == OracleOutcome::Yes && escrow.yes_seller == PartyId(p) {
                                escrow.yes_seller_amount.0 as int
                            } else if outcome != OracleOutcome::Yes && escrow.yes_buyer
                                == PartyId(p) {
                                escrow.yes_buyer_amount.0 as int
                            } else {
                                0
                            },
                    ) <= u64::MAX
                    &&& row.received_from_others + seqs::sum_by(
                        request.escrows,
                        |escrow: Escrow|
                            if outcome == OracleOutcome::Yes && escrow.yes_buyer == PartyId(p) {
                                escrow.yes_seller_amount.0 as int
                            } else if outcome != OracleOutcome::Yes && escrow.yes_seller
                                == PartyId(p) {
                                escrow.yes_buyer_amount.0 as int
                            } else {
                                0
                            },
                    ) <= u64::MAX
                };
            v.entries[i].room_to_settle(v.ledger, outcome) <==> roomy
        }),
{
    let e = v.entries[i];
    let request = e.request;
    let n = request.escrows.len() as int;
    let moves = model::pay_moves(request.escrows, e.handles, outcome, n);
    room::lemma_only_payouts(request.escrows, e.handles, outcome, n);
    room::lemma_pay_moves(v.ledger, request.escrows, e.handles, outcome, n, n);
    lemma_room_to_let_out(v.ledger, moves);
    let after = e.settle_holds(v.ledger, outcome);
    assert forall|p: u128|
    {
        let row = #[trigger] v.ledger.row(PartyId(p));
        after.row(PartyId(p)).fits() == {
            &&& row.account.free + seqs::sum_by(
                request.escrows,
                |escrow: Escrow|
                    if outcome == OracleOutcome::Yes && escrow.yes_buyer == PartyId(p)
                        || outcome == OracleOutcome::No && escrow.yes_seller
                        == PartyId(p) {
                        escrow.notional.0 as int
                    } else {
                        0
                    },
            ) <= u64::MAX
            &&& row.paid_to_others + seqs::sum_by(
                request.escrows,
                |escrow: Escrow|
                    if outcome == OracleOutcome::Yes && escrow.yes_seller == PartyId(p) {
                        escrow.yes_seller_amount.0 as int
                    } else if outcome != OracleOutcome::Yes && escrow.yes_buyer
                        == PartyId(p) {
                        escrow.yes_buyer_amount.0 as int
                    } else {
                        0
                    },
            ) <= u64::MAX
            &&& row.received_from_others + seqs::sum_by(
                request.escrows,
                |escrow: Escrow|
                    if outcome == OracleOutcome::Yes && escrow.yes_buyer == PartyId(p) {
                        escrow.yes_seller_amount.0 as int
                    } else if outcome != OracleOutcome::Yes && escrow.yes_seller
                        == PartyId(p) {
                        escrow.yes_buyer_amount.0 as int
                    } else {
                        0
                    },
            ) <= u64::MAX
        }
    } by {
        lemma_records(v, i, outcome, PartyId(p));
        course::lemma_paid_out(v, i, outcome, PartyId(p));
        assert(v.ledger.row(PartyId(p)).fits());
        let row = after.row(PartyId(p));
        assert(0 <= row.account.free);
    }
    if after.fits() {
        assert forall|p: u128|
        {
            let row = #[trigger] v.ledger.row(PartyId(p));
            &&& row.account.free + seqs::sum_by(
                request.escrows,
                |escrow: Escrow|
                    if outcome == OracleOutcome::Yes && escrow.yes_buyer == PartyId(p)
                        || outcome == OracleOutcome::No && escrow.yes_seller
                        == PartyId(p) {
                        escrow.notional.0 as int
                    } else {
                        0
                    },
            ) <= u64::MAX
            &&& row.paid_to_others + seqs::sum_by(
                request.escrows,
                |escrow: Escrow|
                    if outcome == OracleOutcome::Yes && escrow.yes_seller == PartyId(p) {
                        escrow.yes_seller_amount.0 as int
                    } else if outcome != OracleOutcome::Yes && escrow.yes_buyer
                        == PartyId(p) {
                        escrow.yes_buyer_amount.0 as int
                    } else {
                        0
                    },
            ) <= u64::MAX
            &&& row.received_from_others + seqs::sum_by(
                request.escrows,
                |escrow: Escrow|
                    if outcome == OracleOutcome::Yes && escrow.yes_buyer == PartyId(p) {
                        escrow.yes_seller_amount.0 as int
                    } else if outcome != OracleOutcome::Yes && escrow.yes_seller
                        == PartyId(p) {
                        escrow.yes_buyer_amount.0 as int
                    } else {
                        0
                    },
            ) <= u64::MAX
        } by {
            assert(after.row(PartyId(p)).fits());
        }
    }
    if forall|p: u128|
    {
        let row = #[trigger] v.ledger.row(PartyId(p));
        &&& row.account.free + seqs::sum_by(
            request.escrows,
            |escrow: Escrow|
                if outcome == OracleOutcome::Yes && escrow.yes_buyer == PartyId(p)
                    || outcome == OracleOutcome::No && escrow.yes_seller
                    == PartyId(p) {
                    escrow.notional.0 as int
                } else {
                    0
                },
        ) <= u64::MAX
        &&& row.paid_to_others + seqs::sum_by(
            request.escrows,
            |escrow: Escrow|
                if outcome == OracleOutcome::Yes && escrow.yes_seller == PartyId(p) {
                    escrow.yes_seller_amount.0 as int
                } else if outcome != OracleOutcome::Yes && escrow.yes_buyer
                    == PartyId(p) {
                    escrow.yes_buyer_amount.0 as int
                } else {
                    0
                },
        ) <= u64::MAX
        &&& row.received_from_others + seqs::sum_by(
            request.escrows,
            |escrow: Escrow|
                if outcome == OracleOutcome::Yes && escrow.yes_buyer == PartyId(p) {
                    escrow.yes_seller_amount.0 as int
                } else if outcome != OracleOutcome::Yes && escrow.yes_seller
                    == PartyId(p) {
                    escrow.yes_buyer_amount.0 as int
                } else {
                    0
                },
        ) <= u64::MAX
    } {
        assert forall|p: u128| (#[trigger] after.row(PartyId(p))).fits() by {
            let row = v.ledger.row(PartyId(p));
        }
    }
}

/// What paying out a request leaves in the records of a party.
proof fn lemma_records(v: EngineModel, i: int, outcome: OracleOutcome, party: PartyId)
    requires
        v.wf(),
        0 <= i < v.entries.len(),
        v.entries[i].in_escrow(),
    ensures
        ({
            let request = v.entries[i].request;
            let before = v.ledger.row(party);
            let after = v.entries[i].settle_holds(v.ledger, outcome).row(party);
            &&& after.paid_to_others == before.paid_to_others + seqs::sum_by(
                request.escrows,
                |escrow: Escrow|
                    if outcome == OracleOutcome::Yes && escrow.yes_seller == party {
                        escrow.yes_seller_amount.0 as int
                    } else if outcome != OracleOutcome::Yes && escrow.yes_buyer
                        == party {
                        escrow.yes_buyer_amount.0 as int
                    } else {
                        0
                    },
            )
            &&& after.received_from_others == before.received_from_others + seqs::sum_by(
                request.escrows,
                |escrow: Escrow|
                    if outcome == OracleOutcome::Yes && escrow.yes_buyer == party {
                        escrow.yes_seller_amount.0 as int
                    } else if outcome != OracleOutcome::Yes && escrow.yes_seller
                        == party {
                        escrow.yes_buyer_amount.0 as int
                    } else {
                        0
                    },
            )
            &&& after.credited == before.credited
        }),
{
    let e = v.entries[i];
    let n = e.request.escrows.len() as int;
    let owners = choose|owners: Seq<Owner>| v.owned(owners);
    assert(e.inv(v.ledger.slots, owners, i, v.config, v.next_seq));
    assert(e.request.escrows.take(n) =~= e.request.escrows);
    lemma_pay_legs_records(e, v.ledger, owners, i, outcome, n, party);
}

/// An outcome that pays a request out is taken exactly if its legs have different identifiers and
/// every party has room: on its free balance for what it wins, and on its records for what it pays
/// to others and receives from them. The records grow by just that.
pub proof fn law_room_for_an_outcome_to_pay(
    v: EngineModel,
    now: Timestamp,
    i: int,
    outcome: OracleOutcome,
    party: PartyId,
)
    requires
        v.wf(),
        forall|p: u128| (#[trigger] v.ledger.row(PartyId(p))).fits(),
        0 <= i < v.entries.len(),
        v.entries[i].request.state == RequestState::Locked && v.config.dispute_window is None
            || v.entries[i].request.state == RequestState::Disputed,
        outcome == OracleOutcome::Yes || outcome == OracleOutcome::No,
    ensures
        ({
            let request = v.entries[i].request;
            let done = v.resolve(now, request.id, outcome);
            let distinct = forall|a: int, b: int|
                0 <= a < b < request.legs.len() ==> (#[trigger] request.legs[a]).id != (
                #[trigger] request.legs[b]).id;
            let roomy = forall|p: u128|
                {
                    let row = #[trigger] v.ledger.row(PartyId(p));
                    &&& row.account.free + seqs::sum_by(
                        request.escrows,
                        |escrow: Escrow|
                            if outcome == OracleOutcome::Yes && escrow.yes_buyer == PartyId(p)
                                || outcome == OracleOutcome::No && escrow.yes_seller
                                == PartyId(p) {
                                escrow.notional.0 as int
                            } else {
                                0
                            },
                    ) <= u64::MAX
                    &&& row.paid_to_others + seqs::sum_by(
                        request.escrows,
                        |escrow: Escrow|
                            if outcome == OracleOutcome::Yes && escrow.yes_seller == PartyId(p) {
                                escrow.yes_seller_amount.0 as int
                            } else if outcome != OracleOutcome::Yes && escrow.yes_buyer
                                == PartyId(p) {
                                escrow.yes_buyer_amount.0 as int
                            } else {
                                0
                            },
                    ) <= u64::MAX
                    &&& row.received_from_others + seqs::sum_by(
                        request.escrows,
                        |escrow: Escrow|
                            if outcome == OracleOutcome::Yes && escrow.yes_buyer == PartyId(p) {
                                escrow.yes_seller_amount.0 as int
                            } else if outcome != OracleOutcome::Yes && escrow.yes_seller
                                == PartyId(p) {
                                escrow.yes_buyer_amount.0 as int
                            } else {
                                0
                            },
                    ) <= u64::MAX
                };
            &&& done is Some <==> distinct && roomy
            &&& done matches Some(done) ==> {
                let before = v.ledger.row(party);
                let after = done.venue.ledger.row(party);
                &&& after.paid_to_others == before.paid_to_others + seqs::sum_by(
                    request.escrows,
                    |escrow: Escrow|
                        if outcome == OracleOutcome::Yes && escrow.yes_seller == party {
                            escrow.yes_seller_amount.0 as int
                        } else if outcome != OracleOutcome::Yes && escrow.yes_buyer
                            == party {
                            escrow.yes_buyer_amount.0 as int
                        } else {
                            0
                        },
                )
                &&& after.received_from_others == before.received_from_others + seqs::sum_by(
                    request.escrows,
                    |escrow: Escrow|
                        if outcome == OracleOutcome::Yes && escrow.yes_buyer == party {
                            escrow.yes_seller_amount.0 as int
                        } else if outcome != OracleOutcome::Yes && escrow.yes_seller
                            == party {
                            escrow.yes_buyer_amount.0 as int
                        } else {
                            0
                        },
                )
                &&& after.credited == before.credited
            }
        }),
{
    course::law_requests_are_found(v, v.entries[i].request.id, i);
    lemma_room_to_settle(v, i, outcome);
    lemma_records(v, i, outcome, party);
}

/// The same of a reported outcome whose dispute window is over.
pub proof fn law_room_for_a_report_to_pay(
    v: EngineModel,
    now: Timestamp,
    i: int,
    party: PartyId,
)
    requires
        v.wf(),
        forall|p: u128| (#[trigger] v.ledger.row(PartyId(p))).fits(),
        0 <= i < v.entries.len(),
        v.entries[i].request.state == RequestState::Reported,
        now@ > v.entries[i].request.dispute_deadline->Some_0@,
    ensures
        ({
            let request = v.entries[i].request;
            let outcome = request.reported_outcome->Some_0;
            let distinct = forall|a: int, b: int|
                0 <= a < b < request.legs.len() ==> (#[trigger] request.legs[a]).id != (
                #[trigger] request.legs[b]).id;
            let roomy = forall|p: u128|
                {
                    let row = #[trigger] v.ledger.row(PartyId(p));
                    &&& row.account.free + seqs::sum_by(
                        request.escrows,
                        |escrow: Escrow|
                            if outcome == OracleOutcome::Yes && escrow.yes_buyer == PartyId(p)
                                || outcome == OracleOutcome::No && escrow.yes_seller
                                == PartyId(p) {
                                escrow.notional.0 as int
                            } else {
                                0
                            },
                    ) <= u64::MAX
                    &&& row.paid_to_others + seqs::sum_by(
                        request.escrows,
                        |escrow: Escrow|
                            if outcome == OracleOutcome::Yes && escrow.yes_seller == PartyId(p) {
                                escrow.yes_seller_amount.0 as int
                            } else if outcome != OracleOutcome::Yes && escrow.yes_buyer
                                == PartyId(p) {
                                escrow.yes_buyer_amount.0 as int
                            } else {
                                0
                            },
                    ) <= u64::MAX
                    &&& row.received_from_others + seqs::sum_by(
                        request.escrows,
                        |escrow: Escrow|
                            if outcome == OracleOutcome::Yes && escrow.yes_buyer == PartyId(p) {
                                escrow.yes_seller_amount.0 as int
                            } else if outcome != OracleOutcome::Yes && escrow.yes_seller
                                == PartyId(p) {
                                escrow.yes_buyer_amount.0 as int
                            } else {
                                0
                            },
                    ) <= u64::MAX
                };
            &&& v.tick_entry(now, i) is Some <==> distinct && roomy
            &&& v.tick_entry(now, i) matches Some(w) ==> {
                let before = v.ledger.row(party);
                let after = w.ledger.row(party);
                &&& after.paid_to_others == before.paid_to_others + seqs::sum_by(
                    request.escrows,
                    |escrow: Escrow|
                        if outcome == OracleOutcome::Yes && escrow.yes_seller == party {
                            escrow.yes_seller_amount.0 as int
                        } else if outcome != OracleOutcome::Yes && escrow.yes_buyer
                            == party {
                            escrow.yes_buyer_amount.0 as int
                        } else {
                            0
                        },
                )
                &&& after.received_from_others == before.received_from_others + seqs::sum_by(
                    request.escrows,
                    |escrow: Escrow|
                        if outcome == OracleOutcome::Yes && escrow.yes_buyer == party {
                            escrow.yes_seller_amount.0 as int
                        } else if outcome != OracleOutcome::Yes && escrow.yes_seller
                            == party {
                            escrow.yes_buyer_amount.0 as int
                        } else {
                            0
                        },
                )
                &&& after.credited == before.credited
            }
        }),
{
    keeps::lemma_entry_sound(v, i);
    let outcome = v.entries[i].request.reported_outcome->Some_0;
    lemma_room_to_settle(v, i, outcome);
    lemma_records(v, i, outcome, party);
}

/// A request can be refunded exactly if every party has room for what it put up.
proof fn lemma_room_to_unwind(v: EngineModel, i: int)
    requires
        v.wf(),
        forall|p: u128| (#[trigger] v.ledger.row(PartyId(p))).fits(),
        0 <= i < v.entries.len(),
        v.entries[i].in_escrow(),
    ensures
        ({
            let request = v.entries[i].request;
            let roomy = forall|p: u128|
                (#[trigger] v.ledger.row(PartyId(p))).account.free + seqs::sum_by(
                    request.escrows,
                    |escrow: Escrow|
                        (if escrow.yes_buyer == PartyId(p) {
                            escrow.yes_buyer_amount.0 as int
                        } else {
                            0
                        }) + (if escrow.yes_seller == PartyId(p) {
                            escrow.yes_seller_amount.0 as int
                        } else {
                            0
                        }),
                ) <= u64::MAX;
            v.entries[i].room_to_unwind(v.ledger) <==> roomy
        }),
{
    let e = v.entries[i];
    let request = e.request;
    let n = request.escrows.len() as int;
    let moves = model::refund_moves(e.handles, n);
    room::lemma_only_refunds(e.handles, n);
    room::lemma_refund_moves(v.ledger, e.handles, n, n);
    lemma_room_to_let_out(v.ledger, moves);
    laws::lemma_refund_legs_gains(v.ledger, e.handles, n);
    let after = e.unwind_holds(v.ledger);
    assert forall|p: u128|
    after.row(PartyId(p)).fits() == ((#[trigger] v.ledger.row(PartyId(p))).account.free
            + seqs::sum_by(
            request.escrows,
            |escrow: Escrow|
                (if escrow.yes_buyer == PartyId(p) {
                        escrow.yes_buyer_amount.0 as int
                    } else {
                        0
                }) + (if escrow.yes_seller == PartyId(p) {
                        escrow.yes_seller_amount.0 as int
                    } else {
                        0
                }),
        ) <= u64::MAX) by {
        course::lemma_refunded(v, i, PartyId(p));
        assert(v.ledger.row(PartyId(p)).fits());
        let row = after.row(PartyId(p));
        assert(0 <= row.account.free);
    }
    if after.fits() {
        assert forall|p: u128|
        (#[trigger] v.ledger.row(PartyId(p))).account.free + seqs::sum_by(
            request.escrows,
            |escrow: Escrow|
                (if escrow.yes_buyer == PartyId(p) {
                        escrow.yes_buyer_amount.0 as int
                    } else {
                        0
                }) + (if escrow.yes_seller == PartyId(p) {
                        escrow.yes_seller_amount.0 as int
                    } else {
                        0
                }),
        ) <= u64::MAX by {
            assert(after.row(PartyId(p)).fits());
        }
    }
    if forall|p: u128|
    (#[trigger] v.ledger.row(PartyId(p))).account.free + seqs::sum_by(
        request.escrows,
        |escrow: Escrow|
            (if escrow.yes_buyer == PartyId(p) {
                    escrow.yes_buyer_amount.0 as int
                } else {
                    0
            }) + (if escrow.yes_seller == PartyId(p) {
                    escrow.yes_seller_amount.0 as int
                } else {
                    0
            }),
    ) <= u64::MAX {
        assert forall|p: u128| (#[trigger] after.row(PartyId(p))).fits() by {
            let row = v.ledger.row(PartyId(p));
        }
    }
}

/// A request is unwound, by an invalid outcome or when the limit of its dispute is over, exactly if
/// its legs have different identifiers and every party has room on its free balance for what it put
/// up.
pub proof fn law_room_to_refund(v: EngineModel, now: Timestamp, i: int)
    requires
        v.wf(),
        forall|p: u128| (#[trigger] v.ledger.row(PartyId(p))).fits(),
        0 <= i < v.entries.len(),
        v.entries[i].request.state == RequestState::Locked || v.entries[i].request.state
            == RequestState::Disputed,
    ensures
        ({
            let request = v.entries[i].request;
            let distinct = forall|a: int, b: int|
                0 <= a < b < request.legs.len() ==> (#[trigger] request.legs[a]).id != (
                #[trigger] request.legs[b]).id;
            let roomy = forall|p: u128|
                (#[trigger] v.ledger.row(PartyId(p))).account.free + seqs::sum_by(
                    request.escrows,
                    |escrow: Escrow|
                        (if escrow.yes_buyer == PartyId(p) {
                            escrow.yes_buyer_amount.0 as int
                        } else {
                            0
                        }) + (if escrow.yes_seller == PartyId(p) {
                            escrow.yes_seller_amount.0 as int
                        } else {
                            0
                        }),
                ) <= u64::MAX;
            &&& v.resolve(now, request.id, OracleOutcome::Invalid) is Some <==> distinct && roomy
            &&& request.state == RequestState::Disputed && request.unwind_deadline is Some && now@
                > request.unwind_deadline->Some_0@ ==> (v.tick_entry(now, i) is Some <==> distinct
                && roomy)
        }),
{
    course::law_requests_are_found(v, v.entries[i].request.id, i);
    lemma_room_to_unwind(v, i);
}

/// Quotes can be let go exactly if every maker has room for the collateral that goes back.
proof fn lemma_room_to_release(
    e: EntryModel,
    m: LedgerModel,
    owners: Seq<Owner>,
    k: int,
    scope: Scope,
)
    requires
        m.wf(),
        m.fits(),
        e.reservations.len() == e.request.quotes.len(),
        e.backed(m.slots, owners, k),
        owners.len() == m.slots.len(),
    ensures
        ({
            let request = e.request;
            e.room_to_release(m, scope) <==> (forall|p: u128|
                (#[trigger] m.row(PartyId(p))).account.free + seqs::sum_by(
                    request.quotes,
                    |q: Quote|
                        if q.maker == PartyId(p) && scope.covers(q) && q.holds_collateral() {
                            q.collateral(
                                request.legs[request.leg_index(q.leg_id)->Some_0],
                            ).0 as int
                        } else {
                            0
                        },
                ) <= u64::MAX)
        }),
{
    let request = e.request;
    let n = request.quotes.len() as int;
    let moves = e.release_moves(scope, n);
    room::lemma_only_releases(e, scope, n);
    room::lemma_release_moves(e, m, scope, n, n);
    lemma_room_to_let_out(m, moves);
    laws::lemma_release_holds_gains(e, m, scope, n);
    ticks::lemma_let_go_is_held(e, m.slots, owners, k, scope);
    assert(request.quotes.take(n) =~= request.quotes);
    let after = e.release_all_holds(m, scope);
    assert forall|p: u128|
    after.row(PartyId(p)).fits() == ((#[trigger] m.row(PartyId(p))).account.free
            + seqs::sum_by(
            request.quotes,
            |q: Quote|
                if q.maker == PartyId(p) && scope.covers(q) && q.holds_collateral() {
                    q.collateral(
                        request.legs[request.leg_index(q.leg_id)->Some_0],
                    ).0 as int
                } else {
                    0
                },
        ) <= u64::MAX) by {
        ticks::lemma_let_go_balances(e, m, owners, k, scope, n, PartyId(p));
        seqs::lemma_sum_same(
            request.quotes,
            |q: Quote|
                if scope.covers(q) && q.holds_collateral() && q.maker == PartyId(p) {
                    q.collateral(request.legs[request.leg_index(q.leg_id)->Some_0]).0 as int
                } else {
                    0
                },
            request.quotes,
            |q: Quote|
                if q.maker == PartyId(p) && scope.covers(q) && q.holds_collateral() {
                    q.collateral(
                        request.legs[request.leg_index(q.leg_id)->Some_0],
                    ).0 as int
                } else {
                    0
                },
        );
        assert(m.row(PartyId(p)).fits());
        let row = after.row(PartyId(p));
        assert(0 <= row.account.free);
    }
    if after.fits() {
        assert forall|p: u128|
        (#[trigger] m.row(PartyId(p))).account.free + seqs::sum_by(
            request.quotes,
            |q: Quote|
                if q.maker == PartyId(p) && scope.covers(q) && q.holds_collateral() {
                    q.collateral(
                        request.legs[request.leg_index(q.leg_id)->Some_0],
                    ).0 as int
                } else {
                    0
                },
        ) <= u64::MAX by {
            assert(after.row(PartyId(p)).fits());
        }
    }
    if forall|p: u128|
    (#[trigger] m.row(PartyId(p))).account.free + seqs::sum_by(
        request.quotes,
        |q: Quote|
            if q.maker == PartyId(p) && scope.covers(q) && q.holds_collateral() {
                q.collateral(
                    request.legs[request.leg_index(q.leg_id)->Some_0],
                ).0 as int
            } else {
                0
            },
    ) <= u64::MAX {
        assert forall|p: u128| (#[trigger] after.row(PartyId(p))).fits() by {
            let row = m.row(PartyId(p));
        }
    }
}

/// There is room for all quotes of a request to be let go exactly if every maker has room for the
/// collateral of its live and selected ones.
proof fn lemma_room_for_all(e: EntryModel, m: LedgerModel, owners: Seq<Owner>, k: int)
    requires
        m.wf(),
        m.fits(),
        e.reservations.len() == e.request.quotes.len(),
        e.backed(m.slots, owners, k),
        owners.len() == m.slots.len(),
    ensures
        ({
            let request = e.request;
            e.room_to_release(m, Scope::All) <==> (forall|p: u128|
                (#[trigger] m.row(PartyId(p))).account.free + seqs::sum_by(
                    request.quotes,
                    |q: Quote|
                        if q.maker == PartyId(p) && (q.state == QuoteState::Live || q.state
                            == QuoteState::Selected) {
                            q.collateral(
                                request.legs[request.leg_index(q.leg_id)->Some_0],
                            ).0 as int
                        } else {
                            0
                        },
                ) <= u64::MAX)
        }),
{
    let request = e.request;
    let scope = Scope::All;
    lemma_room_to_release(e, m, owners, k, scope);
    assert forall|p: u128|
    seqs::sum_by(
        request.quotes,
        |q: Quote|
            if q.maker == PartyId(p) && scope.covers(q) && q.holds_collateral() {
                q.collateral(
                    request.legs[request.leg_index(q.leg_id)->Some_0],
                ).0 as int
            } else {
                0
            },
    ) == seqs::sum_by(
        request.quotes,
        |q: Quote|
            if q.maker == PartyId(p) && (q.state == QuoteState::Live || q.state
                    == QuoteState::Selected) {
                q.collateral(
                    request.legs[request.leg_index(q.leg_id)->Some_0],
                ).0 as int
            } else {
                0
            },
    ) && #[trigger] m.row(PartyId(p)) == m.row(PartyId(p)) by {
        seqs::lemma_sum_same(
            request.quotes,
            |q: Quote|
                if q.maker == PartyId(p) && scope.covers(q) && q.holds_collateral() {
                    q.collateral(
                        request.legs[request.leg_index(q.leg_id)->Some_0],
                    ).0 as int
                } else {
                    0
                },
            request.quotes,
            |q: Quote|
                if q.maker == PartyId(p) && (q.state == QuoteState::Live || q.state
                        == QuoteState::Selected) {
                    q.collateral(
                        request.legs[request.leg_index(q.leg_id)->Some_0],
                    ).0 as int
                } else {
                    0
                },
        );
    }
}

/// A package can be turned down, and one accepted too late or past its window can fail, exactly if
/// every maker has room on its free balance for the collateral of its quotes.
pub proof fn law_room_for_packages_to_fail(v: EngineModel, now: Timestamp, i: int)
    requires
        v.wf(),
        forall|p: u128| (#[trigger] v.ledger.row(PartyId(p))).fits(),
        0 <= i < v.entries.len(),
        v.entries[i].request.state == RequestState::Presented,
    ensures
        ({
            let request = v.entries[i].request;
            let roomy = forall|p: u128|
                (#[trigger] v.ledger.row(PartyId(p))).account.free + seqs::sum_by(
                    request.quotes,
                    |q: Quote|
                        if q.maker == PartyId(p) && (q.state == QuoteState::Live || q.state
                            == QuoteState::Selected) {
                            q.collateral(
                                request.legs[request.leg_index(q.leg_id)->Some_0],
                            ).0 as int
                        } else {
                            0
                        },
                ) <= u64::MAX;
            let late = now@ > request.accept_deadline->Some_0@;
            &&& v.room_to_reject(request.requester, request.id) <==> roomy
            &&& late ==> (v.accept(now, request.requester, request.id) is Some <==> roomy)
            &&& late ==> (v.tick_entry(now, i) is Some <==> roomy)
        }),
{
    let e = v.entries[i];
    course::law_requests_are_found(v, e.request.id, i);
    let owners = choose|owners: Seq<Owner>| v.owned(owners);
    assert(e.inv(v.ledger.slots, owners, i, v.config, v.next_seq));
    lemma_room_for_all(e, v.ledger, owners, i);
}

/// An open request that is not due can be moved on exactly if every maker has room on its free
/// balance for the collateral of its expired quotes.
pub proof fn law_room_for_expired_quotes(v: EngineModel, now: Timestamp, i: int)
    requires
        v.wf(),
        forall|p: u128| (#[trigger] v.ledger.row(PartyId(p))).fits(),
        0 <= i < v.entries.len(),
        v.entries[i].request.state == RequestState::Open,
        now@ < v.entries[i].request.response_deadline@,
    ensures
        ({
            let request = v.entries[i].request;
            v.tick_entry(now, i) is Some <==> (forall|p: u128|
                (#[trigger] v.ledger.row(PartyId(p))).account.free + seqs::sum_by(
                    request.quotes,
                    |q: Quote|
                        if q.maker == PartyId(p) && q.state == QuoteState::Live && q.expires_at@ <= now@ {
                            q.collateral(
                                request.legs[request.leg_index(q.leg_id)->Some_0],
                            ).0 as int
                        } else {
                            0
                        },
                ) <= u64::MAX)
        }),
{
    let e = v.entries[i];
    let owners = choose|owners: Seq<Owner>| v.owned(owners);
    assert(e.inv(v.ledger.slots, owners, i, v.config, v.next_seq));
    lemma_room_for_expired(e, v.ledger, owners, i, now);
}

proof fn lemma_room_for_expired(
    e: EntryModel,
    m: LedgerModel,
    owners: Seq<Owner>,
    k: int,
    now: Timestamp,
)
    requires
        m.wf(),
        m.fits(),
        e.reservations.len() == e.request.quotes.len(),
        e.backed(m.slots, owners, k),
        owners.len() == m.slots.len(),
    ensures
        ({
            let request = e.request;
            e.room_to_release(m, Scope::Expired(now)) <==> (forall|p: u128|
                (#[trigger] m.row(PartyId(p))).account.free + seqs::sum_by(
                    request.quotes,
                    |q: Quote|
                        if q.maker == PartyId(p) && q.state == QuoteState::Live && q.expires_at@ <= now@ {
                            q.collateral(
                                request.legs[request.leg_index(q.leg_id)->Some_0],
                            ).0 as int
                        } else {
                            0
                        },
                ) <= u64::MAX)
        }),
{
    let request = e.request;
    let scope = Scope::Expired(now);
    lemma_room_to_release(e, m, owners, k, scope);
    assert forall|p: u128|
    seqs::sum_by(
        request.quotes,
        |q: Quote|
            if q.maker == PartyId(p) && scope.covers(q) && q.holds_collateral() {
                q.collateral(
                    request.legs[request.leg_index(q.leg_id)->Some_0],
                ).0 as int
            } else {
                0
            },
    ) == seqs::sum_by(
        request.quotes,
        |q: Quote|
            if q.maker == PartyId(p) && q.state == QuoteState::Live && q.expires_at@ <= now@ {
                q.collateral(
                    request.legs[request.leg_index(q.leg_id)->Some_0],
                ).0 as int
            } else {
                0
            },
    ) && #[trigger] m.row(PartyId(p)) == m.row(PartyId(p)) by {
        seqs::lemma_sum_same(
            request.quotes,
            |q: Quote|
                if q.maker == PartyId(p) && scope.covers(q) && q.holds_collateral() {
                    q.collateral(
                        request.legs[request.leg_index(q.leg_id)->Some_0],
                    ).0 as int
                } else {
                    0
                },
            request.quotes,
            |q: Quote|
                if q.maker == PartyId(p) && q.state == QuoteState::Live && q.expires_at@ <= now@ {
                    q.collateral(
                        request.legs[request.leg_index(q.leg_id)->Some_0],
                    ).0 as int
                } else {
                    0
                },
        );
    }
}

/// A live quote can be taken back by its maker exactly if the maker has room on its free balance for
/// its collateral.
pub proof fn law_room_to_take_a_quote_back(v: EngineModel, i: int, j: int)
    requires
        v.wf(),
        forall|p: u128| (#[trigger] v.ledger.row(PartyId(p))).fits(),
        0 <= i < v.entries.len(),
        v.entries[i].request.state == RequestState::Open,
        0 <= j < v.entries[i].request.quotes.len(),
        v.entries[i].request.quotes[j].state == QuoteState::Live,
    ensures
        ({
            let request = v.entries[i].request;
            let quote = request.quotes[j];
            v.room_to_cancel(quote.maker, quote.id) <==> v.ledger.account(quote.maker).free
                + quote.collateral(request.legs[request.leg_index(quote.leg_id)->Some_0]).0
                <= u64::MAX
        }),
{
    let e = v.entries[i];
    let request = e.request;
    let quote = request.quotes[j];
    let scope = Scope::Named(quote.id);
    course::law_quotes_are_found(v, quote.id, i, j);
    let owners = choose|owners: Seq<Owner>| v.owned(owners);
    assert(e.inv(v.ledger.slots, owners, i, v.config, v.next_seq));
    lemma_room_to_release(e, v.ledger, owners, i, scope);
    let lock = quote.collateral(request.legs[request.leg_index(quote.leg_id)->Some_0]).0 as int;
    assert forall|p: u128|
    seqs::sum_by(
        request.quotes,
        |q: Quote|
            if q.maker == PartyId(p) && scope.covers(q) && q.holds_collateral() {
                q.collateral(
                    request.legs[request.leg_index(q.leg_id)->Some_0],
                ).0 as int
            } else {
                0
            },
    ) == (if PartyId(p) == quote.maker {
            lock
        } else {
            0
    }) && #[trigger] v.ledger.row(PartyId(p)) == v.ledger.row(PartyId(p)) by {
        let back = |q: Quote|
            if q.maker == PartyId(p) && scope.covers(q) && q.holds_collateral() {
                q.collateral(
                    request.legs[request.leg_index(q.leg_id)->Some_0],
                ).0 as int
            } else {
                0
            };
            assert forall|h: int| 0 <= h < request.quotes.len() && h != j implies back(
                #[trigger] request.quotes[h],
            ) == 0 by {
                assert(request.quotes[h].id != request.quotes[j].id);
            }
            deals::lemma_one_term(request.quotes, back, j);
    }
    assert forall|p: u128| (#[trigger] v.ledger.row(PartyId(p))).account.free <= u64::MAX by {
        assert(v.ledger.row(PartyId(p)).fits());
    }
    let row = v.ledger.row(PartyId(quote.maker.0));
}

/// A request that is due can be moved on exactly if the end of the accept window is on the calendar
/// and every maker has room on its free balance for the collateral that goes back: that of its
/// expired quotes where every leg is suited, and else that of all its live ones.
pub proof fn law_room_for_due_requests(v: EngineModel, now: Timestamp, i: int)
    requires
        v.wf(),
        forall|p: u128| (#[trigger] v.ledger.row(PartyId(p))).fits(),
        0 <= i < v.entries.len(),
        v.entries[i].request.state == RequestState::Open,
        now@ >= v.entries[i].request.response_deadline@,
    ensures
        ({
            let request = v.entries[i].request;
            let close = now.plus(v.config.accept_window)->Some_0;
            let until = if request.resolves_at@ < close@ {
                request.resolves_at
            } else {
                close
            };
            let matched = forall|l: int|
                0 <= l < request.legs.len() ==> exists|j: int|
                    0 <= j < request.quotes.len() && (#[trigger] request.quotes[j]).state
                        == QuoteState::Live && request.quotes[j].leg_id == (
                    #[trigger] request.legs[l]).id && request.quotes[j].size.0
                        >= request.legs[l].notional.0 && now@ < request.quotes[j].expires_at@
                        && until@ <= request.quotes[j].expires_at@;
            let on_calendar = now.plus(v.config.accept_window) is Some;
            let expired = forall|p: u128|
                (#[trigger] v.ledger.row(PartyId(p))).account.free + seqs::sum_by(
                    request.quotes,
                    |q: Quote|
                        if q.maker == PartyId(p) && q.state == QuoteState::Live && q.expires_at@ <= now@ {
                            q.collateral(
                                request.legs[request.leg_index(q.leg_id)->Some_0],
                            ).0 as int
                        } else {
                            0
                        },
                ) <= u64::MAX;
            let live = forall|p: u128|
                (#[trigger] v.ledger.row(PartyId(p))).account.free + seqs::sum_by(
                    request.quotes,
                    |q: Quote|
                        if q.maker == PartyId(p) && q.state == QuoteState::Live {
                            q.collateral(
                                request.legs[request.leg_index(q.leg_id)->Some_0],
                            ).0 as int
                        } else {
                            0
                        },
                ) <= u64::MAX;
            &&& matched ==> (v.tick_entry(now, i) is Some <==> on_calendar && expired)
            &&& !matched ==> (v.tick_entry(now, i) is Some <==> on_calendar && live)
        }),
{
    let e = v.entries[i];
    let request = e.request;
    let close = now.plus(v.config.accept_window)->Some_0;
    let until = if request.resolves_at@ < close@ {
        request.resolves_at
    } else {
        close
    };
    let owners = choose|owners: Seq<Owner>| v.owned(owners);
    assert(e.inv(v.ledger.slots, owners, i, v.config, v.next_seq));
    let scope = Scope::Expired(now);
    let fresh = e.release(scope);
    let ledger = e.release_all_holds(v.ledger, scope);
    let n = request.quotes.len() as int;
    lemma_room_for_expired(e, v.ledger, owners, i, now);
    ticks::lemma_matched(e, now, until);
    ticks::lemma_suited_everywhere(request, now, until);
    transitions::lemma_release_entry(e, v.ledger, owners, i, v.config, v.next_seq, scope);
    assert forall|q: LegId| fresh.request.leg_index(q) == request.leg_index(q) by {}
    assert forall|p: u128|
    (#[trigger] v.ledger.row(PartyId(p))).account.free + seqs::sum_by(
        request.quotes,
        |q: Quote|
            if q.maker == PartyId(p) && q.state == QuoteState::Live {
                q.collateral(
                    request.legs[request.leg_index(q.leg_id)->Some_0],
                ).0 as int
            } else {
                0
            },
    ) == ledger.row(PartyId(p)).account.free + seqs::sum_by(
        fresh.request.quotes,
        |q: Quote|
            if q.maker == PartyId(p) && (q.state == QuoteState::Live || q.state
                    == QuoteState::Selected) {
                q.collateral(
                    fresh.request.legs[fresh.request.leg_index(q.leg_id)->Some_0],
                ).0 as int
            } else {
                0
            },
    ) && v.ledger.row(PartyId(p)).account.free + seqs::sum_by(
        request.quotes,
        |q: Quote|
            if q.maker == PartyId(p) && q.state == QuoteState::Live && q.expires_at@ <= now@ {
                q.collateral(
                    request.legs[request.leg_index(q.leg_id)->Some_0],
                ).0 as int
            } else {
                0
            },
    ) <= v.ledger.row(PartyId(p)).account.free + seqs::sum_by(
        request.quotes,
        |q: Quote|
            if q.maker == PartyId(p) && q.state == QuoteState::Live {
                q.collateral(
                    request.legs[request.leg_index(q.leg_id)->Some_0],
                ).0 as int
            } else {
                0
            },
    ) by {
        ticks::lemma_expired_back(v, now, i, PartyId(p));
        ticks::lemma_sum_of_two(
            request.quotes,
            |q: Quote|
                if q.maker == PartyId(p) && q.state == QuoteState::Live && q.expires_at@ <= now@ {
                    q.collateral(
                        request.legs[request.leg_index(q.leg_id)->Some_0],
                    ).0 as int
                } else {
                    0
                },
            fresh.request.quotes,
            |q: Quote|
                if q.maker == PartyId(p) && (q.state == QuoteState::Live || q.state
                        == QuoteState::Selected) {
                    q.collateral(
                        fresh.request.legs[fresh.request.leg_index(q.leg_id)->Some_0],
                    ).0 as int
                } else {
                    0
                },
            |q: Quote|
                if q.maker == PartyId(p) && q.state == QuoteState::Live {
                    q.collateral(
                        request.legs[request.leg_index(q.leg_id)->Some_0],
                    ).0 as int
                } else {
                    0
                },
        );
        lemma_sum_not_negative(
            fresh.request.quotes,
            |q: Quote|
                if q.maker == PartyId(p) && (q.state == QuoteState::Live || q.state
                        == QuoteState::Selected) {
                    q.collateral(
                        fresh.request.legs[fresh.request.leg_index(q.leg_id)->Some_0],
                    ).0 as int
                } else {
                    0
                },
        );
    }
    if e.room_to_release(v.ledger, scope) {
        room::lemma_release_moves(e, v.ledger, scope, n, n);
        room::lemma_only_releases(e, scope, n);
        lemma_room_to_let_out(v.ledger, e.release_moves(scope, n));
        lemma_room_for_all(fresh, ledger, owners, i);
        if forall|p: u128|
        (#[trigger] v.ledger.row(PartyId(p))).account.free + seqs::sum_by(
            request.quotes,
            |q: Quote|
                if q.maker == PartyId(p) && q.state == QuoteState::Live {
                    q.collateral(
                        request.legs[request.leg_index(q.leg_id)->Some_0],
                    ).0 as int
                } else {
                    0
                },
        ) <= u64::MAX {
            assert forall|p: u128|
            (#[trigger] ledger.row(PartyId(p))).account.free
                + seqs::sum_by(
                fresh.request.quotes,
                |q: Quote|
                    if q.maker == PartyId(p) && (q.state == QuoteState::Live || q.state
                            == QuoteState::Selected) {
                        q.collateral(
                            fresh.request.legs[fresh.request.leg_index(q.leg_id)->Some_0],
                        ).0 as int
                    } else {
                        0
                    },
            ) <= u64::MAX by {
                let row = v.ledger.row(PartyId(p));
            }
        }
        if forall|p: u128|
        (#[trigger] ledger.row(PartyId(p))).account.free
            + seqs::sum_by(
            fresh.request.quotes,
            |q: Quote|
                if q.maker == PartyId(p) && (q.state == QuoteState::Live || q.state
                        == QuoteState::Selected) {
                    q.collateral(
                        fresh.request.legs[fresh.request.leg_index(q.leg_id)->Some_0],
                    ).0 as int
                } else {
                    0
                },
        ) <= u64::MAX {
            assert forall|p: u128|
            (#[trigger] v.ledger.row(PartyId(p))).account.free + seqs::sum_by(
                request.quotes,
                |q: Quote|
                    if q.maker == PartyId(p) && q.state == QuoteState::Live {
                        q.collateral(
                            request.legs[request.leg_index(q.leg_id)->Some_0],
                        ).0 as int
                    } else {
                        0
                    },
            ) <= u64::MAX by {
                let row = ledger.row(PartyId(p));
            }
        }
    } else {
        if forall|p: u128|
        (#[trigger] v.ledger.row(PartyId(p))).account.free + seqs::sum_by(
            request.quotes,
            |q: Quote|
                if q.maker == PartyId(p) && q.state == QuoteState::Live {
                    q.collateral(
                        request.legs[request.leg_index(q.leg_id)->Some_0],
                    ).0 as int
                } else {
                    0
                },
        ) <= u64::MAX {
            assert forall|p: u128|
            (#[trigger] v.ledger.row(PartyId(p))).account.free + seqs::sum_by(
                request.quotes,
                |q: Quote|
                    if q.maker == PartyId(p) && q.state == QuoteState::Live && q.expires_at@ <= now@ {
                        q.collateral(
                            request.legs[request.leg_index(q.leg_id)->Some_0],
                        ).0 as int
                    } else {
                        0
                    },
            ) <= u64::MAX by {
                let row = v.ledger.row(PartyId(p));
            }
        }
    }
}

/// A sum of terms that are not negative is not negative.
proof fn lemma_sum_not_negative<T>(s: Seq<T>, f: spec_fn(T) -> int)
    requires
        forall|j: int| 0 <= j < s.len() ==> f(#[trigger] s[j]) >= 0,
    ensures
        seqs::sum_by(s, f) >= 0,
    decreases s.len(),
{
    if s.len() > 0 {
        let rest = s.drop_last();
        assert forall|j: int| 0 <= j < rest.len() implies f(#[trigger] rest[j]) >= 0 by {
            assert(rest[j] == s[j]);
        }
        lemma_sum_not_negative(rest, f);
        assert(f(s[s.len() - 1]) >= 0);
    }
}

/// Whether nobody has more free or reserved, or less in escrow.
spec fn put_in(m: LedgerModel, n: LedgerModel) -> bool {
    forall|p: u128|
        {
            let before = m.row(PartyId(p));
            let after = #[trigger] n.row(PartyId(p));
            &&& 0 <= after.account.free <= before.account.free
            &&& 0 <= after.account.reserved <= before.account.reserved
            &&& 0 <= before.account.escrowed <= after.account.escrowed
            &&& after.credited == before.credited
            &&& after.paid_to_others == before.paid_to_others
            &&& after.received_from_others == before.received_from_others
        }
}

/// There is room for the first `k` items of a good batch exactly if everything fits once they are
/// in escrow.
proof fn lemma_room_to_put_in(m: LedgerModel, items: Seq<LockItem>, k: int)
    requires
        m.wf(),
        m.fits(),
        m.batch_error(items) is None,
        0 <= k <= items.len(),
    ensures
        put_in(m, m.lock_items(items, k)),
        m.has_room(model::lock_moves(items).take(k)) <==> m.lock_items(items, k).fits(),
    decreases k,
{
    let locks = model::lock_moves(items);
    room::lemma_lock_moves(m, items, k);
    ledger::laws::lemma_lock_items(m, items, k);
    let n = m.lock_items(items, k);
    if k == 0 {
        assert(locks.take(0).len() == 0);
        assert forall|p: u128|
            {
                let after = #[trigger] m.row(PartyId(p));
                &&& 0 <= after.account.free
                &&& 0 <= after.account.reserved
                &&& 0 <= after.account.escrowed
            } by {
            ledger::laws::law_balances_are_within_the_credits(m, PartyId(p));
        }
    } else {
        lemma_room_to_put_in(m, items, k - 1);
        ledger::laws::lemma_run_one_more(m, locks, k - 1);
        room::lemma_lock_moves(m, items, k - 1);
        ledger::laws::lemma_lock_items(m, items, k - 1);
        let r = m.lock_items(items, k - 1);
        let item = items[k - 1];
        assert forall|p: u128|
            {
                let before = r.row(PartyId(p));
                let after = #[trigger] n.row(PartyId(p));
                &&& 0 <= after.account.free <= before.account.free
                &&& 0 <= after.account.reserved <= before.account.reserved
                &&& 0 <= before.account.escrowed <= after.account.escrowed
                &&& after.credited == before.credited
                &&& after.paid_to_others == before.paid_to_others
                &&& after.received_from_others == before.received_from_others
            } by {
            ledger::laws::law_balances_are_within_the_credits(n, PartyId(p));
            ledger::laws::law_balances_are_within_the_credits(r, PartyId(p));
        }
        assert forall|p: u128|
            {
                let before = m.row(PartyId(p));
                let after = #[trigger] n.row(PartyId(p));
                &&& 0 <= after.account.free <= before.account.free
                &&& 0 <= after.account.reserved <= before.account.reserved
                &&& 0 <= before.account.escrowed <= after.account.escrowed
                &&& after.credited == before.credited
                &&& after.paid_to_others == before.paid_to_others
                &&& after.received_from_others == before.received_from_others
            } by {
            let between = r.row(PartyId(p));
        }
        if n.fits() {
            assert forall|p: u128| (#[trigger] r.row(PartyId(p))).fits() by {
                assert(m.row(PartyId(p)).fits());
                assert(n.row(PartyId(p)).fits());
            }
        }
    }
}

/// Counting a batch has no part in what it and letting go of quotes make of the rows.
proof fn lemma_counted_release(e: EntryModel, m: LedgerModel)
    requires
        m.wf(),
        m.batch_error(e.planned_items()) is None,
    ensures
        ({
            let items = e.planned_items();
            e.release_all_holds(m.lock_batch(items), Scope::Losing).rows == e.release_all_holds(
                m.lock_items(items, items.len() as int),
                Scope::Losing,
            ).rows
        }),
{
    let items = e.planned_items();
    let len = items.len() as int;
    let n = e.request.quotes.len() as int;
    let locks = model::lock_moves(items);
    let losing = e.release_moves(Scope::Losing, n);
    let c = m.counted();
    assert(locks.take(len) =~= locks);
    room::lemma_lock_moves(m, items, len);
    room::lemma_lock_moves(c, items, len);
    room::lemma_run_concat(m, locks, losing);
    room::lemma_run_concat(c, locks, losing);
    room::lemma_release_moves(e, m.lock_items(items, len), Scope::Losing, n, n);
    room::lemma_release_moves(e, c.lock_items(items, len), Scope::Losing, n, n);
    ledger::laws::lemma_run_counted(m, locks + losing);
}

/// A sound package has room to go into escrow exactly if everything fits once it is there and the
/// other quotes are let go.
proof fn lemma_room_to_lock(e: EntryModel, m: LedgerModel)
    requires
        m.wf(),
        m.fits(),
        m.batch_error(e.planned_items()) is None,
    ensures
        ({
            let items = e.planned_items();
            let after = e.release_all_holds(
                m.lock_items(items, items.len() as int),
                Scope::Losing,
            );
            e.room_to_lock(m) <==> after.fits()
        }),
{
    let items = e.planned_items();
    let len = items.len() as int;
    let n = e.request.quotes.len() as int;
    let locks = model::lock_moves(items);
    let losing = e.release_moves(Scope::Losing, n);
    let mid = m.lock_items(items, len);
    let after = e.release_all_holds(mid, Scope::Losing);
    assert(locks.take(len) =~= locks);
    lemma_room_to_put_in(m, items, len);
    room::lemma_lock_moves(m, items, len);
    room::lemma_run_concat(m, locks, losing);
    ledger::laws::lemma_lock_items(m, items, len);
    room::lemma_release_moves(e, mid, Scope::Losing, n, n);
    room::lemma_only_releases(e, Scope::Losing, n);
    laws::lemma_release_holds_escrow(e, mid, Scope::Losing, n);
    laws::lemma_release_holds_gains(e, mid, Scope::Losing, n);
    if mid.fits() {
        lemma_room_to_let_out(mid, losing);
    } else if after.fits() {
        assert forall|p: u128| (#[trigger] mid.row(PartyId(p))).fits() by {
            assert(m.row(PartyId(p)).fits());
            assert(after.row(PartyId(p)).fits());
            assert(after.account(PartyId(p)).escrowed == mid.account(PartyId(p)).escrowed);
        }
    }
}

/// What a party puts up for the first `n` legs of a package, by the escrows and by the quotes
/// shown.
proof fn lemma_stakes_of_the_package(
    e: EntryModel,
    m: LedgerModel,
    owners: Seq<Owner>,
    k: int,
    config: EngineConfig,
    next: SeqNo,
    n: int,
    party: PartyId,
)
    requires
        e.inv(m.slots, owners, k, config, next),
        e.request.state is Presented,
        0 <= n <= e.request.legs.len(),
    ensures
        ({
            let request = e.request;
            laws::stakes(e.planned_escrows().take(n), party) == seqs::sum_by(
                request.package->Some_0.take(n),
                |s: Selection|
                    {
                        let leg = request.legs[request.leg_index(s.leg_id)->Some_0];
                        let quote = request.quotes[request.quote_index(s.quote_id)->Some_0];
                        let share = leg.notional.0 as int * quote.price.spec_bps() / 10_000;
                        let long = leg.side == LegSide::BuyYes || leg.side == LegSide::SellNo;
                        let side = if long {
                            share
                        } else {
                            leg.notional.0 - share
                        };
                        (if party == request.requester {
                            side
                        } else {
                            0
                        }) + (if party == quote.maker {
                            leg.notional.0 - side
                        } else {
                            0
                        })
                    },
            )
        }),
    decreases n,
{
    let request = e.request;
    let package = request.package->Some_0;
    let escrows = e.planned_escrows();
    let put = |s: Selection|
                    {
                        let leg = request.legs[request.leg_index(s.leg_id)->Some_0];
                        let quote = request.quotes[request.quote_index(s.quote_id)->Some_0];
                        let share = leg.notional.0 as int * quote.price.spec_bps() / 10_000;
                        let long = leg.side == LegSide::BuyYes || leg.side == LegSide::SellNo;
                        let side = if long {
                            share
                        } else {
                            leg.notional.0 - share
                        };
                        (if party == request.requester {
                            side
                        } else {
                            0
                        }) + (if party == quote.maker {
                            leg.notional.0 - side
                        } else {
                            0
                        })
                    };
    transitions::lemma_selection(e, m.slots, owners, k, config, next, 0);
    if n == 0 {
        assert(escrows.take(0).len() == 0);
        assert(package.take(0).len() == 0);
    } else {
        let i = n - 1;
        lemma_stakes_of_the_package(e, m, owners, k, config, next, i, party);
        transitions::lemma_selection(e, m.slots, owners, k, config, next, i);
        let quote = request.quotes[e.selected_quote(i)];
        request::law_roles_and_sides_of_an_escrow(
            e.named_leg(i),
            quote,
            request.requester,
            quote.maker,
        );
        assert(laws::put_up(escrows[i], party) == put(package[i]));
        seqs::lemma_sum_take(escrows, |escrow: Escrow| laws::put_up(escrow, party), i);
        seqs::lemma_sum_take(package, put, i);
    }
}

/// A package whose legs have different identifiers and which is accepted in time is locked or
/// refused exactly if there is room. Where the requester can fund its sides, every party needs room
/// in escrow for what it puts up for the legs, and on its free balance for the collateral of its
/// live quotes, less what the requester puts up. Where it cannot, every maker needs room on its free
/// balance for the collateral of its quotes.
pub proof fn law_room_for_accepts(v: EngineModel, now: Timestamp, i: int)
    requires
        v.wf(),
        forall|p: u128| (#[trigger] v.ledger.row(PartyId(p))).fits(),
        0 <= i < v.entries.len(),
        v.entries[i].request.state == RequestState::Presented,
        now@ <= v.entries[i].request.accept_deadline->Some_0@,
        forall|a: int, b: int|
            0 <= a < b < v.entries[i].request.legs.len() ==> (
            #[trigger] v.entries[i].request.legs[a]).id != (
            #[trigger] v.entries[i].request.legs[b]).id,
    ensures
        ({
            let request = v.entries[i].request;
            let package = request.package->Some_0;
            let done = v.accept(now, request.requester, request.id);
            let need = seqs::sum_by(
                package,
                |s: Selection|
                    {
                        let leg = request.legs[request.leg_index(s.leg_id)->Some_0];
                        let quote = request.quotes[request.quote_index(s.quote_id)->Some_0];
                        let share = leg.notional.0 as int * quote.price.spec_bps() / 10_000;
                        if leg.side == LegSide::BuyYes || leg.side == LegSide::SellNo {
                            share
                        } else {
                            leg.notional.0 - share
                        }
                    },
            );
            let funded = v.ledger.account(request.requester).free >= need;
            &&& funded ==> (done is Some <==> forall|p: u128|
                {
                    let row = #[trigger] v.ledger.row(PartyId(p));
                    &&& row.account.escrowed + seqs::sum_by(
                        package,
                        |s: Selection|
                        {
                        let leg = request.legs[request.leg_index(s.leg_id)->Some_0];
                        let quote = request.quotes[request.quote_index(s.quote_id)->Some_0];
                        let share = leg.notional.0 as int * quote.price.spec_bps() / 10_000;
                        let long = leg.side == LegSide::BuyYes || leg.side == LegSide::SellNo;
                        let side = if long {
                            share
                        } else {
                            leg.notional.0 - share
                        };
                        (if PartyId(p) == request.requester {
                            side
                        } else {
                            0
                        }) + (if PartyId(p) == quote.maker {
                            leg.notional.0 - side
                        } else {
                            0
                        })
                        },
                    ) <= u64::MAX
                    &&& row.account.free + seqs::sum_by(
                        request.quotes,
                        |q: Quote|
                            if q.maker == PartyId(p) && q.state == QuoteState::Live {
                                q.collateral(
                                    request.legs[request.leg_index(q.leg_id)->Some_0],
                                ).0 as int
                            } else {
                                0
                            },
                        ) - (if PartyId(p)
                        == request.requester {
                        need
                        } else {
                        0
                    }) <= u64::MAX
                })
            &&& !funded ==> (done is Some <==> forall|p: u128|
                (#[trigger] v.ledger.row(PartyId(p))).account.free + seqs::sum_by(
                    request.quotes,
                    |q: Quote|
                        if q.maker == PartyId(p) && (q.state == QuoteState::Live || q.state
                            == QuoteState::Selected) {
                            q.collateral(
                                request.legs[request.leg_index(q.leg_id)->Some_0],
                            ).0 as int
                        } else {
                            0
                        },
                ) <= u64::MAX)
        }),
{
    let e = v.entries[i];
    let request = e.request;
    let package = request.package->Some_0;
    let items = e.planned_items();
    let legs = request.legs.len() as int;
    let need = seqs::sum_by(
        package,
        |s: Selection|
            {
                let leg = request.legs[request.leg_index(s.leg_id)->Some_0];
                let quote = request.quotes[request.quote_index(s.quote_id)->Some_0];
                let share = leg.notional.0 as int * quote.price.spec_bps() / 10_000;
                if leg.side == LegSide::BuyYes || leg.side == LegSide::SellNo {
                    share
                } else {
                    leg.notional.0 - share
                }
            },
    );
    course::law_requests_are_found(v, request.id, i);
    let owners = choose|owners: Seq<Owner>| v.owned(owners);
    assert(e.inv(v.ledger.slots, owners, i, v.config, v.next_seq));
    transitions::lemma_plan_refusal(e, v.ledger, owners, i, v.config, v.next_seq);
    deals::lemma_funded(v, i, owners);
    seqs::lemma_sum_same(
        package,
        |s: Selection| deals::requester_side(request, s),
        package,
        |s: Selection|
            {
                let leg = request.legs[request.leg_index(s.leg_id)->Some_0];
                let quote = request.quotes[request.quote_index(s.quote_id)->Some_0];
                let share = leg.notional.0 as int * quote.price.spec_bps() / 10_000;
                if leg.side == LegSide::BuyYes || leg.side == LegSide::SellNo {
                    share
                } else {
                    leg.notional.0 - share
                }
            },
    );
    lemma_room_for_all(e, v.ledger, owners, i);
    if v.ledger.batch_error(items) is None {
        lemma_room_to_lock(e, v.ledger);
        let after = e.release_all_holds(
            v.ledger.lock_items(items, items.len() as int),
            Scope::Losing,
        );
        assert(package.take(legs) =~= package);
        assert(e.planned_escrows().take(legs) =~= e.planned_escrows());
        assert forall|p: u128|
        {
            let row = #[trigger] v.ledger.row(PartyId(p));
            after.row(PartyId(p)).fits() == {
                &&& row.account.escrowed + seqs::sum_by(
                    package,
                    |s: Selection|
                        {
                            let leg = request.legs[request.leg_index(s.leg_id)->Some_0];
                            let quote = request.quotes[request.quote_index(s.quote_id)->Some_0];
                            let share = leg.notional.0 as int * quote.price.spec_bps() / 10_000;
                            let long = leg.side == LegSide::BuyYes || leg.side == LegSide::SellNo;
                            let side = if long {
                                share
                            } else {
                                leg.notional.0 - share
                            };
                            (if PartyId(p) == request.requester {
                                    side
                                } else {
                                    0
                            }) + (if PartyId(p) == quote.maker {
                                    leg.notional.0 - side
                                } else {
                                    0
                            })
                        },
                ) <= u64::MAX
                &&& row.account.free + seqs::sum_by(
                    request.quotes,
                    |q: Quote|
                        if q.maker == PartyId(p) && q.state == QuoteState::Live {
                            q.collateral(
                                request.legs[request.leg_index(q.leg_id)->Some_0],
                            ).0 as int
                        } else {
                            0
                        },
                ) - (if PartyId(p)
                        == request.requester {
                        need
                    } else {
                        0
                }) <= u64::MAX
            }
        } by {
            lemma_after_locking(v, i, owners, PartyId(p));
            lemma_stakes_of_the_package(
                e,
                v.ledger,
                owners,
                i,
                v.config,
                v.next_seq,
                legs,
                PartyId(p),
            );
            deals::lemma_need(e, v.ledger, owners, i, v.config, v.next_seq, legs, PartyId(p));
            assert(v.ledger.row(PartyId(p)).fits());
        }
        if after.fits() {
            assert forall|p: u128|
            {
                let row = #[trigger] v.ledger.row(PartyId(p));
                &&& row.account.escrowed + seqs::sum_by(
                    package,
                    |s: Selection|
                        {
                            let leg = request.legs[request.leg_index(s.leg_id)->Some_0];
                            let quote = request.quotes[request.quote_index(s.quote_id)->Some_0];
                            let share = leg.notional.0 as int * quote.price.spec_bps() / 10_000;
                            let long = leg.side == LegSide::BuyYes || leg.side == LegSide::SellNo;
                            let side = if long {
                                share
                            } else {
                                leg.notional.0 - share
                            };
                            (if PartyId(p) == request.requester {
                                    side
                                } else {
                                    0
                            }) + (if PartyId(p) == quote.maker {
                                    leg.notional.0 - side
                                } else {
                                    0
                            })
                        },
                ) <= u64::MAX
                &&& row.account.free + seqs::sum_by(
                    request.quotes,
                    |q: Quote|
                        if q.maker == PartyId(p) && q.state == QuoteState::Live {
                            q.collateral(
                                request.legs[request.leg_index(q.leg_id)->Some_0],
                            ).0 as int
                        } else {
                            0
                        },
                ) - (if PartyId(p)
                        == request.requester {
                        need
                    } else {
                        0
                }) <= u64::MAX
            } by {
                assert(after.row(PartyId(p)).fits());
            }
        }
        if forall|p: u128|
        {
            let row = #[trigger] v.ledger.row(PartyId(p));
            &&& row.account.escrowed + seqs::sum_by(
                package,
                |s: Selection|
                    {
                        let leg = request.legs[request.leg_index(s.leg_id)->Some_0];
                        let quote = request.quotes[request.quote_index(s.quote_id)->Some_0];
                        let share = leg.notional.0 as int * quote.price.spec_bps() / 10_000;
                        let long = leg.side == LegSide::BuyYes || leg.side == LegSide::SellNo;
                        let side = if long {
                            share
                        } else {
                            leg.notional.0 - share
                        };
                        (if PartyId(p) == request.requester {
                                side
                            } else {
                                0
                        }) + (if PartyId(p) == quote.maker {
                                leg.notional.0 - side
                            } else {
                                0
                        })
                    },
            ) <= u64::MAX
            &&& row.account.free + seqs::sum_by(
                request.quotes,
                |q: Quote|
                    if q.maker == PartyId(p) && q.state == QuoteState::Live {
                        q.collateral(
                            request.legs[request.leg_index(q.leg_id)->Some_0],
                        ).0 as int
                    } else {
                        0
                    },
            ) - (if PartyId(p)
                    == request.requester {
                    need
                } else {
                    0
            }) <= u64::MAX
        } {
            assert forall|p: u128| (#[trigger] after.row(PartyId(p))).fits() by {
                let row = v.ledger.row(PartyId(p));
            }
        }
    }
}

/// What a package in escrow, with the other quotes let go, makes of a party's row.
proof fn lemma_after_locking(v: EngineModel, i: int, owners: Seq<Owner>, party: PartyId)
    requires
        v.wf(),
        v.ledger.fits(),
        v.owned(owners),
        0 <= i < v.entries.len(),
        v.entries[i].request.state == RequestState::Presented,
        v.ledger.batch_error(v.entries[i].planned_items()) is None,
    ensures
        ({
            let e = v.entries[i];
            let request = e.request;
            let items = e.planned_items();
            let before = v.ledger.row(party);
            let after = e.release_all_holds(
                v.ledger.lock_items(items, items.len() as int),
                Scope::Losing,
            ).row(party);
            &&& after.account.free == before.account.free - ledger::pending(
                items,
                items.len() as int,
                party,
            ) + seqs::sum_by(
                request.quotes,
                |q: Quote|
                    if q.maker == party && q.state == QuoteState::Live {
                        q.collateral(
                            request.legs[request.leg_index(q.leg_id)->Some_0],
                        ).0 as int
                    } else {
                        0
                    },
            )
            &&& after.account.free >= 0
            &&& 0 <= after.account.reserved <= before.account.reserved
            &&& after.account.escrowed == before.account.escrowed + laws::stakes(
                e.planned_escrows(),
                party,
            )
            &&& after.account.escrowed >= 0
            &&& after.credited == before.credited
            &&& after.paid_to_others == before.paid_to_others
            &&& after.received_from_others == before.received_from_others
        }),
{
    let e = v.entries[i];
    let request = e.request;
    let items = e.planned_items();
    let len = items.len() as int;
    let n = request.quotes.len() as int;
    let legs = request.legs.len() as int;
    let mid = v.ledger.lock_items(items, len);
    let after = e.release_all_holds(mid, Scope::Losing);
    assert(e.inv(v.ledger.slots, owners, i, v.config, v.next_seq));
    deals::lemma_losers_back(v, i, owners, party);
    ledger::laws::lemma_counted(v.ledger, items);
    lemma_counted_release(e, v.ledger);
    ledger::laws::lemma_lock_items(v.ledger, items, len);
    ledger::laws::lemma_lock_items_gains(v.ledger, items, len);
    ledger::laws::lemma_lock_items_for(v.ledger, items, len, party);
    laws::lemma_release_holds_gains(e, mid, Scope::Losing, n);
    laws::lemma_release_holds_escrow(e, mid, Scope::Losing, n);
    laws::lemma_plan_parts(e, v.ledger, owners, i, v.config, v.next_seq, legs, party);
    transitions::lemma_selection(e, v.ledger.slots, owners, i, v.config, v.next_seq, 0);
    assert(items.take(2 * legs) =~= items);
    assert(e.planned_escrows().take(legs) =~= e.planned_escrows());
    lemma_room_to_put_in(v.ledger, items, len);
    room::lemma_release_moves(e, mid, Scope::Losing, n, n);
    room::lemma_only_releases(e, Scope::Losing, n);
    lemma_lets_out_all(mid, e.release_moves(Scope::Losing, n));
    let between = mid.row(PartyId(party.0));
    let row = after.row(PartyId(party.0));
    assert(after.account(PartyId(party.0)).escrowed == mid.account(PartyId(party.0)).escrowed);
}

/// Nothing but a decided outcome touches the records: quoting, cancelling, accepting, rejecting, an
/// invalid outcome and a dispute leave what every party was credited, has paid to others and has
/// received from them as it is, and what it has altogether too.
pub proof fn law_records_change_with_decided_outcomes_only(
    v: EngineModel,
    now: Timestamp,
    party: PartyId,
    request_id: RequestId,
    leg_id: LegId,
    quote_id: QuoteId,
    fresh: QuoteId,
    price: Price,
    size: Amount,
    expires_at: Timestamp,
    other: PartyId,
)
    requires
        v.wf(),
    ensures
        ({
            let same = |w: EngineModel|
                {
                    let before = v.ledger.row(other);
                    let after = w.ledger.row(other);
                    &&& after.credited == before.credited
                    &&& after.paid_to_others == before.paid_to_others
                    &&& after.received_from_others == before.received_from_others
                    &&& after.account.free + after.account.reserved + after.account.escrowed
                        == before.account.free + before.account.reserved + before.account.escrowed
                };
            &&& same(
                v.submit_quote(
                    now,
                    fresh,
                    party,
                    request_id,
                    leg_id,
                    price,
                    size,
                    expires_at,
                ).venue,
            )
            &&& same(v.cancel_quote(party, quote_id).venue)
            &&& same(v.reject(party, request_id).venue)
            &&& v.accept(now, party, request_id) matches Some(done) ==> same(done.venue)
            &&& v.dispute(now, party, request_id) matches Some(done) ==> same(done.venue)
            &&& v.resolve(now, request_id, OracleOutcome::Invalid) matches Some(done) ==> same(
                done.venue,
            )
            &&& v.resolve(now, request_id, OracleOutcome::Disputed) matches Some(done) ==> same(
                done.venue,
            )
        }),
{
    laws::law_only_outcomes_move_money_between_parties(
        v,
        now,
        party,
        request_id,
        leg_id,
        quote_id,
        fresh,
        price,
        size,
        expires_at,
    );
    let p = PartyId(other.0);
    let quoted = v.submit_quote(now, fresh, party, request_id, leg_id, price, size, expires_at);
    assert(quoted.venue.ledger.row(p).account.sum() == v.ledger.row(p).account.sum());
    assert(v.cancel_quote(party, quote_id).venue.ledger.row(p).account.sum() == v.ledger.row(
        p,
    ).account.sum());
    assert(v.reject(party, request_id).venue.ledger.row(p).account.sum() == v.ledger.row(
        p,
    ).account.sum());
    if let Some(done) = v.accept(now, party, request_id) {
        assert(done.venue.ledger.row(p).account.sum() == v.ledger.row(p).account.sum());
    }
    if let Some(done) = v.resolve(now, request_id, OracleOutcome::Invalid) {
        assert(done.venue.ledger.row(p).account.sum() == v.ledger.row(p).account.sum());
    }
}

/// The clock leaves the records of every party as they are, and what it has altogether, unless it
/// pays out a reported outcome.
pub proof fn law_the_clock_touches_records_by_paying_only(
    v: EngineModel,
    now: Timestamp,
    i: int,
    other: PartyId,
)
    requires
        v.wf(),
        0 <= i < v.entries.len(),
        v.entries[i].request.state != RequestState::Reported,
    ensures
        v.tick_entry(now, i) matches Some(w) ==> {
            let before = v.ledger.row(other);
            let after = w.ledger.row(other);
            &&& after.credited == before.credited
            &&& after.paid_to_others == before.paid_to_others
            &&& after.received_from_others == before.received_from_others
            &&& after.account.free + after.account.reserved + after.account.escrowed
                == before.account.free + before.account.reserved + before.account.escrowed
        },
{
    let e = v.entries[i];
    let n = e.request.quotes.len() as int;
    let scope = Scope::Expired(now);
    let fresh = e.release(scope);
    let ledger = e.release_all_holds(v.ledger, scope);
    laws::lemma_release_holds_gains(e, v.ledger, scope, n);
    laws::lemma_release_holds_gains(fresh, ledger, Scope::All, n);
    laws::lemma_release_holds_gains(e, v.ledger, Scope::All, n);
    laws::lemma_refund_legs_gains(v.ledger, e.handles, e.request.escrows.len() as int);
    let p = PartyId(other.0);
    assert(ledger.row(p).account.sum() == v.ledger.row(p).account.sum());
    assert(fresh.release_all_holds(ledger, Scope::All).row(p).account.sum() == ledger.row(
        p,
    ).account.sum());
    assert(e.release_all_holds(v.ledger, Scope::All).row(p).account.sum() == v.ledger.row(
        p,
    ).account.sum());
    assert(e.unwind_holds(v.ledger).row(p).account.sum() == v.ledger.row(p).account.sum());
}

/// One batch is tried for every package that is accepted in time, whether it goes through or not,
/// and none by any other command.
#[verifier::spinoff_prover]
#[verifier::rlimit(50)]
pub proof fn law_accepts_in_time_try_one_batch(
    v: EngineModel,
    now: Timestamp,
    party: PartyId,
    request_id: RequestId,
    leg_id: LegId,
    quote_id: QuoteId,
    fresh: QuoteId,
    price: Price,
    size: Amount,
    expires_at: Timestamp,
    outcome: OracleOutcome,
)
    requires
        v.wf(),
    ensures
        v.submit_quote(
            now,
            fresh,
            party,
            request_id,
            leg_id,
            price,
            size,
            expires_at,
        ).venue.ledger.lock_batch_calls == v.ledger.lock_batch_calls,
        v.cancel_quote(party, quote_id).venue.ledger.lock_batch_calls == v.ledger.lock_batch_calls,
        v.reject(party, request_id).venue.ledger.lock_batch_calls == v.ledger.lock_batch_calls,
        v.resolve(now, request_id, outcome) matches Some(done)
            ==> done.venue.ledger.lock_batch_calls == v.ledger.lock_batch_calls,
        v.dispute(now, party, request_id) matches Some(done) ==> done.venue.ledger.lock_batch_calls
            == v.ledger.lock_batch_calls,
        v.accept(now, party, request_id) matches Some(done) ==> {
            let tried = exists|i: int|
                {
                    &&& 0 <= i < v.entries.len()
                    &&& (#[trigger] v.entries[i]).request.id == request_id
                    &&& v.entries[i].request.requester == party
                    &&& v.entries[i].request.state == RequestState::Presented
                    &&& now@ <= v.entries[i].request.accept_deadline->Some_0@
                };
            done.venue.ledger.lock_batch_calls == if tried && v.ledger.lock_batch_calls
                < usize::MAX {
                v.ledger.lock_batch_calls + 1
            } else {
                v.ledger.lock_batch_calls as int
            }
        },
{
    keeps::lemma_found(v, request_id);
    keeps::lemma_quote_found(v, quote_id);
    if let Some(i) = v.find_quote(quote_id) {
        let e = v.entries[i];
        laws::lemma_release_holds_gains(
            e,
            v.ledger,
            Scope::Named(quote_id),
            e.request.quotes.len() as int,
        );
    }
    assert forall|j: int|
        0 <= j < v.entries.len() && (#[trigger] v.entries[j]).request.id == request_id implies
        v.find(request_id) == Some(j) by {
        course::law_requests_are_found(v, request_id, j);
    }
    if let Some(i) = v.find(request_id) {
        let e = v.entries[i];
        let n = e.request.quotes.len() as int;
        let legs = e.request.escrows.len() as int;
        let items = e.planned_items();
        let batch = v.ledger.lock_batch(items);
        laws::lemma_release_holds_gains(e, v.ledger, Scope::All, n);
        laws::lemma_refund_legs_gains(v.ledger, e.handles, legs);
        laws::lemma_pay_legs_batches(v.ledger, e.request.escrows, e.handles, outcome, legs);
        ledger::laws::lemma_lock_batch_wf(v.ledger, items);
        ledger::laws::lemma_counted(v.ledger, items);
        if v.ledger.batch_error(items) is None {
            ledger::laws::lemma_lock_items(v.ledger.counted(), items, items.len() as int);
        }
        laws::lemma_release_holds_gains(e, batch, Scope::All, n);
        laws::lemma_release_holds_gains(e, batch, Scope::Losing, n);
    }
}

} // verus!
