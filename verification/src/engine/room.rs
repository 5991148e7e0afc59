//! The moves that commands make in the ledger, and whether there is room for them.
use vstd::prelude::*;
use crate::domain::ids::PartyId;
use crate::domain::matching;
use crate::domain::request::{Escrow, Leg, RequestModel};
use crate::domain::state::{OracleOutcome, QuoteState};
use crate::engine::entry;
use crate::engine::entry::Entry;
use crate::engine::model;
use crate::engine::model::{EntryModel, LegEscrow, Scope};
use crate::ledger::{LedgerModel, LockItem, Move, ReservationId};
use crate::ledger::laws;
use crate::seqs;
use crate::time::Timestamp;

verus! {

/// Moves made after others.
pub proof fn lemma_run_concat(m: LedgerModel, first: Seq<Move>, then: Seq<Move>)
    ensures
        m.run(first + then) == m.run(first).run(then),
        m.has_room(first + then) == (m.has_room(first) && m.run(first).has_room(then)),
    decreases then.len(),
{
    if then.len() == 0 {
        assert(first + then =~= first);
    } else {
        assert((first + then).drop_last() =~= first + then.drop_last());
        lemma_run_concat(m, first, then.drop_last());
    }
}

/// Letting go of quotes is a matter of moves, and where there is room for all of them there is
/// room for each.
pub proof fn lemma_release_moves(e: EntryModel, m: LedgerModel, scope: Scope, k: int, n: int)
    requires
        0 <= k <= n,
    ensures
        m.run(e.release_moves(scope, k)) == e.release_holds(m, scope, k),
        m.has_room(e.release_moves(scope, n)) ==> m.has_room(e.release_moves(scope, k)),
        m.has_room(e.release_moves(scope, n)) && k > 0 && e.lets_go(scope, k - 1)
            && e.reservations[k - 1] is Some ==> e.release_holds(m, scope, k).fits(),
    decreases n,
{
    if k < n {
        lemma_release_moves(e, m, scope, k, n - 1);
        let rest = e.release_moves(scope, n - 1);
        if let Some(id) = e.reservations[n - 1] {
            laws::lemma_run_push(m, rest, Move::Release(id));
        }
    } else if k > 0 {
        lemma_release_moves(e, m, scope, k - 1, k - 1);
        let rest = e.release_moves(scope, k - 1);
        if let Some(id) = e.reservations[k - 1] {
            laws::lemma_run_push(m, rest, Move::Release(id));
        }
    }
}

/// The same of paying out legs.
pub proof fn lemma_pay_moves(
    m: LedgerModel,
    escrows: Seq<Escrow>,
    handles: Seq<LegEscrow>,
    outcome: OracleOutcome,
    k: int,
    n: int,
)
    requires
        0 <= k <= n,
    ensures
        m.run(model::pay_moves(escrows, handles, outcome, k)) == model::pay_legs(
            m,
            escrows,
            handles,
            outcome,
            k,
        ),
        m.has_room(model::pay_moves(escrows, handles, outcome, n)) ==> m.has_room(
            model::pay_moves(escrows, handles, outcome, k),
        ),
        m.has_room(model::pay_moves(escrows, handles, outcome, n)) && k > 0 ==> {
            let to = model::winner(escrows[k - 1], outcome);
            let half = model::pay_legs(m, escrows, handles, outcome, k - 1).payout(
                handles[k - 1].yes_buyer,
                to,
            );
            half.fits() && half.payout(handles[k - 1].yes_seller, to).fits()
        },
    decreases n,
{
    if n > 0 {
        let to = model::winner(escrows[n - 1], outcome);
        let rest = model::pay_moves(escrows, handles, outcome, n - 1);
        let buyer = Move::Payout(handles[n - 1].yes_buyer, to);
        let seller = Move::Payout(handles[n - 1].yes_seller, to);
        laws::lemma_run_push(m, rest, buyer);
        laws::lemma_run_push(m, rest.push(buyer), seller);
        if k < n {
            lemma_pay_moves(m, escrows, handles, outcome, k, n - 1);
        } else {
            lemma_pay_moves(m, escrows, handles, outcome, n - 1, n - 1);
        }
    }
}

/// The same of refunding legs.
pub proof fn lemma_refund_moves(m: LedgerModel, handles: Seq<LegEscrow>, k: int, n: int)
    requires
        0 <= k <= n,
    ensures
        m.run(model::refund_moves(handles, k)) == model::refund_legs(m, handles, k),
        m.has_room(model::refund_moves(handles, n)) ==> m.has_room(
            model::refund_moves(handles, k),
        ),
        m.has_room(model::refund_moves(handles, n)) && k > 0 ==> {
            let half = model::refund_legs(m, handles, k - 1).refund(handles[k - 1].yes_buyer);
            half.fits() && half.refund(handles[k - 1].yes_seller).fits()
        },
    decreases n,
{
    if n > 0 {
        let rest = model::refund_moves(handles, n - 1);
        let buyer = Move::Refund(handles[n - 1].yes_buyer);
        let seller = Move::Refund(handles[n - 1].yes_seller);
        laws::lemma_run_push(m, rest, buyer);
        laws::lemma_run_push(m, rest.push(buyer), seller);
        if k < n {
            lemma_refund_moves(m, handles, k, n - 1);
        } else {
            lemma_refund_moves(m, handles, n - 1, n - 1);
        }
    }
}

/// The moves of a batch are its items, one after the other.
pub proof fn lemma_lock_moves(m: LedgerModel, items: Seq<LockItem>, k: int)
    requires
        0 <= k <= items.len(),
    ensures
        m.run(model::lock_moves(items).take(k)) == m.lock_items(items, k),
    decreases k,
{
    if k > 0 {
        lemma_lock_moves(m, items, k - 1);
        laws::lemma_run_one_more(m, model::lock_moves(items), k - 1);
    }
}

/// Where there is room for a package to go into escrow, there is room for its batch, and then for
/// the other quotes to be let go.
pub proof fn lemma_room_to_lock(e: EntryModel, m: LedgerModel)
    requires
        e.room_to_lock(m),
        m.fits(),
        m.batch_error(e.planned_items()) is None,
    ensures
        m.counted().has_room_for(e.planned_items()),
        e.room_to_release(m.lock_batch(e.planned_items()), Scope::Losing),
{
    let items = e.planned_items();
    let base = m.counted();
    let locks = model::lock_moves(items);
    let losing = e.release_moves(Scope::Losing, e.request.quotes.len() as int);
    laws::lemma_run_counted(m, locks + losing);
    lemma_run_concat(base, locks, losing);
    assert(locks.take(items.len() as int) =~= locks);
    lemma_lock_moves(base, items, items.len() as int);
    assert(base.fits()) by {
        assert forall|p: u128| (#[trigger] base.row(PartyId(p))).fits() by {
            assert(m.row(PartyId(p)).fits());
        }
    }
    assert forall|k: int| 0 <= k <= items.len() implies (
    #[trigger] base.lock_items(items, k)).fits() by {
        lemma_lock_moves(base, items, k);
        laws::lemma_room_for_first(base, locks, k);
        if k == 0 {
            assert(base.lock_items(items, 0) == base);
        }
    }
}

/// Letting go of quotes takes releases only.
pub proof fn lemma_only_releases(e: EntryModel, scope: Scope, k: int)
    ensures
        forall|j: int|
            0 <= j < e.release_moves(scope, k).len() ==> (#[trigger] e.release_moves(
                scope,
                k,
            )[j]) is Release,
    decreases k,
{
    if k > 0 {
        lemma_only_releases(e, scope, k - 1);
        let moves = e.release_moves(scope, k);
        let rest = e.release_moves(scope, k - 1);
        assert forall|j: int| 0 <= j < moves.len() implies (#[trigger] moves[j]) is Release by {
            if j < rest.len() {
                assert(moves[j] == rest[j]);
            }
        }
    }
}

/// Paying out takes payouts only.
pub proof fn lemma_only_payouts(
    escrows: Seq<Escrow>,
    handles: Seq<LegEscrow>,
    outcome: OracleOutcome,
    k: int,
)
    ensures
        forall|j: int|
            0 <= j < model::pay_moves(escrows, handles, outcome, k).len() ==> (
            #[trigger] model::pay_moves(escrows, handles, outcome, k)[j]) is Payout,
    decreases k,
{
    if k > 0 {
        lemma_only_payouts(escrows, handles, outcome, k - 1);
        let moves = model::pay_moves(escrows, handles, outcome, k);
        let rest = model::pay_moves(escrows, handles, outcome, k - 1);
        assert forall|j: int| 0 <= j < moves.len() implies (#[trigger] moves[j]) is Payout by {
            if j < rest.len() {
                assert(moves[j] == rest[j]);
            }
        }
    }
}

/// Refunding takes refunds only.
pub proof fn lemma_only_refunds(handles: Seq<LegEscrow>, k: int)
    ensures
        forall|j: int|
            0 <= j < model::refund_moves(handles, k).len() ==> (#[trigger] model::refund_moves(
                handles,
                k,
            )[j]) is Refund,
    decreases k,
{
    if k > 0 {
        lemma_only_refunds(handles, k - 1);
        let moves = model::refund_moves(handles, k);
        let rest = model::refund_moves(handles, k - 1);
        assert forall|j: int| 0 <= j < moves.len() implies (#[trigger] moves[j]) is Refund by {
            if j < rest.len() {
                assert(moves[j] == rest[j]);
            }
        }
    }
}

/// Wherever all that was ever credited is an amount, there is room to let go of quotes.
pub proof fn lemma_room_within_credits(e: EntryModel, m: LedgerModel, scope: Scope)
    requires
        m.wf(),
        m.fits(),
        m.credited_total() <= u64::MAX,
    ensures
        e.room_to_release(m, scope),
        e.release_all_holds(m, scope).wf(),
        e.release_all_holds(m, scope).fits(),
        e.release_all_holds(m, scope).credited_total() <= u64::MAX,
{
    let n = e.request.quotes.len() as int;
    lemma_only_releases(e, scope, n);
    laws::law_letting_go_has_room(m, e.release_moves(scope, n));
    lemma_release_moves(e, m, scope, n, n);
}

/// Wherever all that was ever credited is an amount, there is room for a sound package to go into
/// escrow.
pub proof fn lemma_room_to_lock_within_credits(e: EntryModel, m: LedgerModel)
    requires
        m.wf(),
        m.fits(),
        m.credited_total() <= u64::MAX,
        m.batch_error(e.planned_items()) is None,
    ensures
        e.room_to_lock(m),
{
    let items = e.planned_items();
    let n = items.len() as int;
    let locks = model::lock_moves(items);
    laws::law_batches_have_room(m, items);
    lemma_locks_have_room(m, items, n);
    assert(locks.take(n) =~= locks);
    lemma_lock_moves(m, items, n);
    laws::lemma_lock_items(m, items, n);
    lemma_room_within_credits(e, m.lock_items(items, n), Scope::Losing);
    lemma_run_concat(
        m,
        locks,
        e.release_moves(Scope::Losing, e.request.quotes.len() as int),
    );
}

proof fn lemma_locks_have_room(m: LedgerModel, items: Seq<LockItem>, k: int)
    requires
        m.has_room_for(items),
        0 <= k <= items.len(),
    ensures
        m.has_room(model::lock_moves(items).take(k)),
    decreases k,
{
    let locks = model::lock_moves(items);
    if k > 0 {
        lemma_locks_have_room(m, items, k - 1);
        laws::lemma_run_one_more(m, locks, k - 1);
        lemma_lock_moves(m, items, k);
        assert(m.lock_items(items, k).fits());
    }
}

/// Where there is ample room, there is room to let go of quotes, and ample room is left.
pub proof fn lemma_ample_to_release(e: EntryModel, m: LedgerModel, scope: Scope)
    requires
        m.wf(),
        laws::ample(m),
    ensures
        e.room_to_release(m, scope),
        e.release_all_holds(m, scope).wf(),
        laws::ample(e.release_all_holds(m, scope)),
{
    let n = e.request.quotes.len() as int;
    lemma_only_releases(e, scope, n);
    laws::law_ample_room_is_room(m, e.release_moves(scope, n));
    lemma_release_moves(e, m, scope, n, n);
}

/// The same of paying out.
pub proof fn lemma_ample_to_settle(e: EntryModel, m: LedgerModel, outcome: OracleOutcome)
    requires
        m.wf(),
        laws::ample(m),
    ensures
        e.room_to_settle(m, outcome),
        laws::ample(e.settle_holds(m, outcome)),
{
    let n = e.request.escrows.len() as int;
    lemma_only_payouts(e.request.escrows, e.handles, outcome, n);
    laws::law_ample_room_is_room(
        m,
        model::pay_moves(e.request.escrows, e.handles, outcome, n),
    );
    lemma_pay_moves(m, e.request.escrows, e.handles, outcome, n, n);
}

/// The same of refunding.
pub proof fn lemma_ample_to_unwind(e: EntryModel, m: LedgerModel)
    requires
        m.wf(),
        laws::ample(m),
    ensures
        e.room_to_unwind(m),
        laws::ample(e.unwind_holds(m)),
{
    let n = e.request.escrows.len() as int;
    lemma_only_refunds(e.handles, n);
    laws::law_ample_room_is_room(m, model::refund_moves(e.handles, n));
    lemma_refund_moves(m, e.handles, n, n);
}

/// The moves that let go of the quotes in `scope`.
pub fn release_moves(entry: &Entry, scope: Scope) -> (moves: Vec<Move>)
    requires
        entry@.reservations.len() == entry@.request.quotes.len(),
    ensures
        moves@ == entry@.release_moves(scope, entry@.request.quotes.len() as int),
{
    let ghost e = entry@;
    let mut moves: Vec<Move> = Vec::new();
    let mut i: usize = 0;
    while i < entry.request.quotes.len()
        invariant
            0 <= i <= e.request.quotes.len(),
            e == entry@,
            e.reservations.len() == e.request.quotes.len(),
            moves@ == e.release_moves(scope, i as int),
        decreases e.request.quotes.len() - i,
    {
        if let Some(id) = entry.reservations[i] {
            if entry::lets_go(&entry.request.quotes[i], scope) {
                moves.push(Move::Release(id));
            }
        }
        i = i + 1;
    }
    moves
}

/// The moves that pay out every leg.
pub fn pay_moves(entry: &Entry, outcome: OracleOutcome) -> (moves: Vec<Move>)
    requires
        entry@.handles.len() == entry@.request.escrows.len(),
    ensures
        moves@ == model::pay_moves(
            entry@.request.escrows,
            entry@.handles,
            outcome,
            entry@.request.escrows.len() as int,
        ),
{
    let ghost e = entry@;
    let mut moves: Vec<Move> = Vec::new();
    let mut i: usize = 0;
    while i < entry.request.escrows.len()
        invariant
            0 <= i <= e.request.escrows.len(),
            e == entry@,
            e.handles.len() == e.request.escrows.len(),
            moves@ == model::pay_moves(e.request.escrows, e.handles, outcome, i as int),
        decreases e.request.escrows.len() - i,
    {
        let escrow = entry.request.escrows[i];
        let handles = entry.handles[i];
        let to = entry::winner(&escrow, outcome);
        moves.push(Move::Payout(handles.yes_buyer, to));
        moves.push(Move::Payout(handles.yes_seller, to));
        i = i + 1;
    }
    moves
}

/// The moves that refund every leg.
pub fn refund_moves(entry: &Entry) -> (moves: Vec<Move>)
    requires
        entry@.handles.len() == entry@.request.escrows.len(),
    ensures
        moves@ == model::refund_moves(entry@.handles, entry@.request.escrows.len() as int),
{
    let ghost e = entry@;
    let mut moves: Vec<Move> = Vec::new();
    let mut i: usize = 0;
    while i < entry.request.escrows.len()
        invariant
            0 <= i <= e.request.escrows.len(),
            e == entry@,
            e.handles.len() == e.request.escrows.len(),
            moves@ == model::refund_moves(e.handles, i as int),
        decreases e.request.escrows.len() - i,
    {
        let handles = entry.handles[i];
        moves.push(Move::Refund(handles.yes_buyer));
        moves.push(Move::Refund(handles.yes_seller));
        i = i + 1;
    }
    moves
}

/// The moves that put a batch into escrow.
pub fn lock_moves(items: &Vec<LockItem>) -> (moves: Vec<Move>)
    ensures
        moves@ == model::lock_moves(items@),
{
    let mut moves: Vec<Move> = Vec::new();
    let mut i: usize = 0;
    while i < items.len()
        invariant
            0 <= i <= items@.len(),
            moves@ =~= model::lock_moves(items@).take(i as int),
        decreases items@.len() - i,
    {
        moves.push(Move::Lock(items[i]));
        i = i + 1;
    }
    assert(model::lock_moves(items@).take(i as int) =~= model::lock_moves(items@));
    moves
}

/// An entry whose quotes in `scope` are let go.
pub fn released(entry: &Entry, scope: Scope) -> (after: Entry)
    requires
        entry@.reservations.len() == entry@.request.quotes.len(),
    ensures
        after@ == entry@.release(scope),
{
    let ghost e = entry@;
    let mut request = entry.request.clone();
    let mut reservations: Vec<Option<ReservationId>> = Vec::new();
    let mut i: usize = 0;
    while i < request.quotes.len()
        invariant
            0 <= i <= e.request.quotes.len(),
            e == entry@,
            e.reservations.len() == e.request.quotes.len(),
            request@ == (RequestModel {
                quotes: request.quotes@,
                ..e.request
            }),
            request.quotes@.len() == e.request.quotes.len(),
            reservations@.len() == i,
            forall|j: int|
                0 <= j < i ==> #[trigger] request.quotes@[j] == e.release(scope).request.quotes[j],
            forall|j: int|
                0 <= j < i ==> #[trigger] reservations@[j] == e.release(scope).reservations[j],
            forall|j: int|
                i <= j < e.request.quotes.len() ==> #[trigger] request.quotes@[j]
                    == e.request.quotes[j],
        decreases e.request.quotes.len() - i,
    {
        let mut quote = request.quotes[i];
        if entry::lets_go(&quote, scope) {
            quote.state = QuoteState::Released;
            request.quotes.set(i, quote);
            reservations.push(None);
        } else {
            reservations.push(entry.reservations[i]);
        }
        i = i + 1;
    }
    assert(request@.quotes =~= e.release(scope).request.quotes);
    assert(reservations@ =~= e.release(scope).reservations);
    let after = Entry { request, reservations, handles: entry.handles.clone() };
    assert(after.handles@ =~= entry.handles@);
    after
}

/// Whether a leg has no eligible quote.
pub fn is_unmatched(entry: &Entry, now: Timestamp, accept_deadline: Timestamp) -> (b: bool)
    ensures
        b == (entry@.unmatched(now, accept_deadline) is Some),
{
    let ghost e = entry@;
    let ghost alone = |leg: Leg|
        matching::best_index(leg, e.request.quotes, now, accept_deadline) is None;
    let mut i: usize = 0;
    while i < entry.request.legs.len()
        invariant
            0 <= i <= e.request.legs.len(),
            e == entry@,
            alone == (|leg: Leg|
                matching::best_index(leg, e.request.quotes, now, accept_deadline) is None),
            forall|l: int| 0 <= l < i ==> !alone(#[trigger] e.request.legs[l]),
        decreases e.request.legs.len() - i,
    {
        if matching::best_quote(
            &entry.request.legs[i],
            entry.request.quotes.as_slice(),
            now,
            accept_deadline,
        ).is_none() {
            proof {
                seqs::lemma_first_is(e.request.legs, alone, i as int);
            }
            return true;
        }
        i = i + 1;
    }
    proof {
        seqs::lemma_first_none(e.request.legs, alone);
    }
    false
}

} // verus!
