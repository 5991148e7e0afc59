//! The ledger in memory and the mocked oracle.
use rfq_engine::domain::ids::{ContractId, PartyId};
use rfq_engine::domain::money::Amount;
use rfq_engine::domain::state::OracleOutcome;
use rfq_engine::ledger::{
    EscrowHandle, InsufficientFunds, Ledger, LedgerAccount, LockBatchError, LockItem, Move,
    ReservationId,
};
use rfq_engine::mock::ledger::MockLedger;
use rfq_engine::mock::oracle::MockOracle;
use rfq_engine::ports::Oracle;

fn acct(free: u64, reserved: u64, escrowed: u64) -> LedgerAccount {
    LedgerAccount {
        free: Amount::new(free),
        reserved: Amount::new(reserved),
        escrowed: Amount::new(escrowed),
    }
}

fn from_free(party: PartyId, amount: u64) -> LockItem {
    LockItem::FromFree {
        party,
        amount: Amount::new(amount),
    }
}

#[test]
fn ledger_account_total() {
    assert_eq!(acct(1, 2, 3).total(), Amount::new(6));
    assert_eq!(LedgerAccount::default(), acct(0, 0, 0));
}

#[test]
fn credit_and_balance() {
    let mut ledger = MockLedger::new();
    let p = PartyId::new();
    assert_eq!(ledger.balance(p), acct(0, 0, 0));
    ledger.credit(p, Amount::new(100));
    ledger.credit(p, Amount::new(50));
    assert_eq!(ledger.balance(p), acct(150, 0, 0));
}

#[test]
fn reserve_then_release_round_trips() {
    let mut ledger = MockLedger::new();
    let p = PartyId::new();
    ledger.credit(p, Amount::new(100));

    let r = ledger.reserve(p, Amount::new(40)).unwrap();
    assert_eq!(ledger.balance(p), acct(60, 40, 0));

    assert_eq!(
        ledger.reserve(p, Amount::new(61)),
        Err(InsufficientFunds {
            party: p,
            needed: Amount::new(61),
            available: Amount::new(60)
        })
    );
    assert_eq!(
        ledger.balance(p),
        acct(60, 40, 0),
        "failed reserve has no side effects"
    );

    ledger.release(r);
    assert_eq!(ledger.balance(p), acct(100, 0, 0));
    ledger.release(r);
    assert_eq!(
        ledger.balance(p),
        acct(100, 0, 0),
        "double release is a no-op"
    );
    assert!(ledger.conservation_holds());
}

#[test]
fn lock_batch_is_all_or_nothing() {
    let mut ledger = MockLedger::new();
    let mm = PartyId::new();
    let requester = PartyId::new();
    let poor = PartyId::new();
    ledger.credit(mm, Amount::new(100));
    ledger.credit(requester, Amount::new(100));
    ledger.credit(poor, Amount::new(10));

    let reservation = ledger.reserve(mm, Amount::new(40)).unwrap();
    let before = [
        ledger.balance(mm),
        ledger.balance(requester),
        ledger.balance(poor),
    ];
    assert_eq!(before, [acct(60, 40, 0), acct(100, 0, 0), acct(10, 0, 0)]);
    let issued = ledger.handles_issued();

    // Third item cannot be covered: `poor` has 10 free, needs 50.
    let result = ledger.lock_batch(vec![
        LockItem::FromReservation(reservation),
        LockItem::FromFree {
            party: requester,
            amount: Amount::new(60),
        },
        LockItem::FromFree {
            party: poor,
            amount: Amount::new(50),
        },
    ]);
    assert_eq!(
        result,
        Err(LockBatchError::InsufficientFunds(InsufficientFunds {
            party: poor,
            needed: Amount::new(50),
            available: Amount::new(10),
        }))
    );

    let after = [
        ledger.balance(mm),
        ledger.balance(requester),
        ledger.balance(poor),
    ];
    assert_eq!(after, before, "no account may change when any item fails");
    assert_eq!(ledger.handles_issued(), issued, "no escrow handles issued");
    assert!(
        ledger.reservation_of(reservation).is_some(),
        "the MM reservation is still intact"
    );
    assert!(ledger.conservation_holds());
}

#[test]
fn lock_batch_sums_multiple_free_items_for_one_party() {
    let mut ledger = MockLedger::new();
    let p = PartyId::new();
    ledger.credit(p, Amount::new(100));

    // Each item alone fits; together they do not.
    let result = ledger.lock_batch(vec![
        LockItem::FromFree {
            party: p,
            amount: Amount::new(60),
        },
        LockItem::FromFree {
            party: p,
            amount: Amount::new(60),
        },
    ]);
    assert!(matches!(result, Err(LockBatchError::InsufficientFunds(_))));
    assert_eq!(ledger.balance(p), acct(100, 0, 0));
}

#[test]
fn lock_batch_rejects_unknown_and_reused_reservations() {
    let mut ledger = MockLedger::new();
    let p = PartyId::new();
    ledger.credit(p, Amount::new(100));
    let r = ledger.reserve(p, Amount::new(10)).unwrap();

    let bogus = ReservationId(9_999);
    assert_eq!(
        ledger.lock_batch(vec![LockItem::FromReservation(bogus)]),
        Err(LockBatchError::UnknownReservation(bogus))
    );
    assert_eq!(
        ledger.lock_batch(vec![
            LockItem::FromReservation(r),
            LockItem::FromReservation(r)
        ]),
        Err(LockBatchError::UnknownReservation(r))
    );
    assert_eq!(ledger.balance(p), acct(90, 10, 0));
}

#[test]
fn happy_path_lock_payout_and_refund() {
    let mut ledger = MockLedger::new();
    let mm = PartyId::new();
    let requester = PartyId::new();
    ledger.credit(mm, Amount::new(100));
    ledger.credit(requester, Amount::new(100));

    // Leg: notional 100 at p = 40%. Requester buys Yes (locks 40), MM sells Yes (locks 60).
    let reservation = ledger.reserve(mm, Amount::new(60)).unwrap();
    let handles = ledger
        .lock_batch(vec![
            LockItem::FromReservation(reservation),
            LockItem::FromFree {
                party: requester,
                amount: Amount::new(40),
            },
        ])
        .unwrap();
    assert_eq!(handles.len(), 2);
    assert_eq!(ledger.balance(mm), acct(40, 0, 60));
    assert_eq!(ledger.balance(requester), acct(60, 0, 40));
    assert!(
        ledger.reservation_of(reservation).is_none(),
        "reservation consumed by lock"
    );

    // Yes resolves: requester wins n = 100.
    for h in &handles {
        ledger.payout(*h, requester);
    }
    assert_eq!(ledger.balance(mm), acct(40, 0, 0));
    assert_eq!(ledger.balance(requester), acct(160, 0, 0));
    ledger.payout(handles[0], requester);
    assert_eq!(
        ledger.balance(requester),
        acct(160, 0, 0),
        "double payout is a no-op"
    );
    assert!(ledger.conservation_holds());

    // Fresh leg, then Invalid: refund returns each side to its poster.
    let reservation = ledger.reserve(mm, Amount::new(30)).unwrap();
    let handles = ledger
        .lock_batch(vec![
            LockItem::FromReservation(reservation),
            LockItem::FromFree {
                party: requester,
                amount: Amount::new(70),
            },
        ])
        .unwrap();
    assert_eq!(ledger.balance(mm), acct(10, 0, 30));
    assert_eq!(ledger.balance(requester), acct(90, 0, 70));
    for h in &handles {
        ledger.refund(*h);
    }
    assert_eq!(ledger.balance(mm), acct(40, 0, 0));
    assert_eq!(ledger.balance(requester), acct(160, 0, 0));
    assert!(ledger.conservation_holds());
    assert_eq!(ledger.escrowed_total(), Amount::zero());
}

#[test]
fn locked_fm_lock_batch_is_atomic() {
    let mut ledger = MockLedger::new();
    let (a, b, c) = (PartyId::new(), PartyId::new(), PartyId::new());
    ledger.credit(a, Amount::new(100));
    ledger.credit(b, Amount::new(100));
    ledger.credit(c, Amount::new(10));
    let reservation = ledger.reserve(a, Amount::new(40)).unwrap();
    let before = [ledger.balance(a), ledger.balance(b), ledger.balance(c)];

    let err = ledger
        .lock_batch(vec![
            LockItem::FromReservation(reservation),
            from_free(b, 60),
            from_free(c, 50), // short by 40
        ])
        .unwrap_err();
    assert_eq!(
        err,
        LockBatchError::InsufficientFunds(InsufficientFunds {
            party: c,
            needed: Amount::new(50),
            available: Amount::new(10)
        })
    );
    assert_eq!(
        [ledger.balance(a), ledger.balance(b), ledger.balance(c)],
        before,
        "first two items rolled back"
    );
    assert_eq!(ledger.escrowed_total(), Amount::zero());
    ledger.release(reservation);
    assert_eq!(ledger.balance(a), acct(100, 0, 0));
    assert!(ledger.conservation_holds());
}

#[test]
fn the_first_item_that_cannot_be_locked_is_named() {
    let mut ledger = MockLedger::new();
    let p = PartyId::new();
    ledger.credit(p, Amount::new(100));
    let bogus = ReservationId::new(7);
    // The party can cover the first item and not both; the reservation comes before the second.
    assert_eq!(
        ledger.lock_batch(vec![
            from_free(p, 60),
            LockItem::FromReservation(bogus),
            from_free(p, 60),
        ]),
        Err(LockBatchError::UnknownReservation(bogus))
    );
    assert_eq!(
        ledger.lock_batch(vec![
            from_free(p, 60),
            from_free(p, 60),
            LockItem::FromReservation(bogus),
        ]),
        Err(LockBatchError::InsufficientFunds(InsufficientFunds {
            party: p,
            needed: Amount::new(120),
            available: Amount::new(100),
        }))
    );
    assert_eq!(ledger.lock_batch_calls(), 2, "refused batches are counted");
}

#[test]
fn a_batch_beyond_the_largest_amount_is_refused() {
    let mut ledger = MockLedger::new();
    let p = PartyId::new();
    ledger.credit(p, Amount::new(u64::MAX));
    assert_eq!(
        ledger.lock_batch(vec![from_free(p, u64::MAX), from_free(p, 1)]),
        Err(LockBatchError::InsufficientFunds(InsufficientFunds {
            party: p,
            needed: Amount::new(u64::MAX),
            available: Amount::new(u64::MAX),
        }))
    );
    assert_eq!(ledger.balance(p), acct(u64::MAX, 0, 0));
}

#[test]
fn an_empty_batch_locks_nothing() {
    let mut ledger = MockLedger::new();
    assert_eq!(ledger.lock_batch(vec![]), Ok(vec![]));
    assert_eq!(ledger.lock_batch_calls(), 1);
}

/// A handle works once: a reservation that was released cannot be locked, a chunk that was
/// refunded cannot be paid out.
#[test]
fn handles_work_once() {
    let mut ledger = MockLedger::new();
    let (p, other) = (PartyId::new(), PartyId::new());
    ledger.credit(p, Amount::new(100));
    let r = ledger.reserve(p, Amount::new(40)).unwrap();
    ledger.release(r);
    assert_eq!(
        ledger.lock_batch(vec![LockItem::FromReservation(r)]),
        Err(LockBatchError::UnknownReservation(r))
    );
    let h = ledger.lock_batch(vec![from_free(p, 40)]).unwrap()[0];
    assert_eq!(ledger.escrow_of(h).unwrap().amount, Amount::new(40));
    ledger.refund(h);
    ledger.payout(h, other);
    assert_eq!(ledger.balance(p), acct(100, 0, 0));
    assert_eq!(ledger.balance(other), acct(0, 0, 0));
    ledger.refund(EscrowHandle::new(9_999));
    assert_eq!(ledger.escrow_of(h), None);
    assert!(ledger.conservation_holds());
}

/// Refunding every handle of a batch, in whatever order, gives each poster its own items back into
/// its free balance, those that were reserved too.
#[test]
fn refunding_a_batch_returns_each_item() {
    for order in [[0, 1, 2, 3], [3, 1, 0, 2], [2, 3, 1, 0]] {
        let mut ledger = MockLedger::new();
        let (a, b, bystander) = (PartyId::new(), PartyId::new(), PartyId::new());
        for party in [a, b, bystander] {
            ledger.credit(party, Amount::new(100));
        }
        let kept = ledger.lock_batch(vec![from_free(a, 5)]).unwrap()[0];
        let of_a = ledger.reserve(a, Amount::new(30)).unwrap();
        let of_b = ledger.reserve(b, Amount::new(20)).unwrap();
        let untouched = ledger.reserve(b, Amount::new(1)).unwrap();
        let audit = ledger.audit();
        assert_eq!(ledger.balance(a), acct(65, 30, 5));
        assert_eq!(ledger.balance(b), acct(79, 21, 0));

        let handles = ledger
            .lock_batch(vec![
                LockItem::FromReservation(of_a),
                from_free(b, 7),
                LockItem::FromReservation(of_b),
                from_free(a, 11),
            ])
            .unwrap();
        assert_eq!(ledger.balance(a), acct(54, 0, 46));
        assert_eq!(ledger.balance(b), acct(72, 1, 27));
        for i in order {
            ledger.refund(handles[i]);
        }
        assert_eq!(ledger.balance(a), acct(95, 0, 5));
        assert_eq!(ledger.balance(b), acct(99, 1, 0));
        assert_eq!(ledger.balance(bystander), acct(100, 0, 0));
        for (before, after) in audit.iter().zip(ledger.audit()) {
            assert_eq!(after.party, before.party);
            assert_eq!(after.account.total(), before.account.total());
            assert_eq!(after.credited, before.credited);
            assert_eq!(after.paid_to_others, before.paid_to_others);
            assert_eq!(after.received_from_others, before.received_from_others);
        }
        assert_eq!(ledger.escrow_of(kept).unwrap().amount, Amount::new(5));
        assert_eq!(ledger.reservation_of(untouched).unwrap().amount, Amount::new(1));
        assert!(ledger.conservation_holds());
    }
}

/// A batch from free balances alone is undone by refunding it.
#[test]
fn refunding_a_batch_from_free_balances_undoes_it() {
    let mut ledger = MockLedger::new();
    let (a, b) = (PartyId::new(), PartyId::new());
    ledger.credit(a, Amount::new(10));
    ledger.credit(b, Amount::new(10));
    let handles = ledger
        .lock_batch(vec![from_free(a, 3), from_free(b, 4), from_free(a, 5)])
        .unwrap();
    assert_eq!(ledger.balance(a), acct(2, 0, 8));
    for h in handles.iter().rev() {
        ledger.refund(*h);
    }
    assert_eq!(ledger.balance(a), acct(10, 0, 0));
    assert_eq!(ledger.balance(b), acct(10, 0, 0));
}

#[test]
fn reserving_needs_the_whole_amount_free() {
    let mut ledger = MockLedger::new();
    let p = PartyId::new();
    assert_eq!(
        ledger.reserve(p, Amount::new(1)),
        Err(InsufficientFunds {
            party: p,
            needed: Amount::new(1),
            available: Amount::zero()
        })
    );
    ledger.credit(p, Amount::new(5));
    assert!(ledger.reserve(p, Amount::new(5)).is_ok());
    assert_eq!(ledger.balance(p), acct(0, 5, 0));
}

/// What a party holds is what it was credited, less what its chunks paid to others, plus what
/// others' chunks paid to it.
#[test]
fn the_audit_explains_every_balance() {
    let mut ledger = MockLedger::new();
    let (a, b, uncredited) = (PartyId::new(), PartyId::new(), PartyId::new());
    ledger.credit(a, Amount::new(100));
    ledger.credit(b, Amount::new(50));
    let handles = ledger
        .lock_batch(vec![from_free(a, 30), from_free(b, 20), from_free(a, 5)])
        .unwrap();
    ledger.payout(handles[0], b);
    ledger.payout(handles[1], b);
    ledger.payout(handles[2], uncredited);

    let rows = ledger.audit();
    assert_eq!(rows.len(), 2, "only parties that were credited");
    assert_eq!((rows[0].party, rows[1].party), (a, b));
    assert_eq!(rows[0].credited, Amount::new(100));
    assert_eq!(rows[0].paid_to_others, Amount::new(35));
    assert_eq!(rows[0].received_from_others, Amount::zero());
    assert_eq!(rows[0].account, acct(65, 0, 0));
    assert_eq!(rows[1].paid_to_others, Amount::zero(), "paid to itself");
    assert_eq!(rows[1].received_from_others, Amount::new(30));
    assert_eq!(rows[1].account, acct(80, 0, 0));
    assert_eq!(ledger.balance(uncredited), acct(5, 0, 0));
    assert!(ledger.conservation_holds());
}

#[test]
fn there_is_a_most_that_a_party_can_hold() {
    let mut ledger = MockLedger::new();
    let p = PartyId::new();
    assert!(ledger.can_credit(p, Amount::new(u64::MAX)));
    ledger.credit(p, Amount::new(u64::MAX - 1));
    assert!(ledger.can_credit(p, Amount::new(1)));
    assert!(!ledger.can_credit(p, Amount::new(2)));
}

#[test]
fn moves_are_tried_before_they_are_made() {
    let mut ledger = MockLedger::new();
    let (rich, other) = (PartyId::new(), PartyId::new());
    ledger.credit(rich, Amount::new(u64::MAX - 10));
    ledger.credit(other, Amount::new(30));
    let reservation = ledger.reserve(other, Amount::new(2)).unwrap();
    let handles = ledger
        .lock_batch(vec![
            from_free(other, 6),
            from_free(other, 9),
            from_free(other, 1),
            from_free(rich, 5),
        ])
        .unwrap();
    let pay = |i: usize, to: PartyId| Move::Payout(handles[i], to);
    assert!(ledger.can_make(&vec![]));
    assert!(ledger.can_make(&vec![pay(0, rich), pay(1, rich)]));
    assert!(
        !ledger.can_make(&vec![pay(0, rich), pay(1, rich), pay(2, rich)]),
        "one unit too much"
    );
    assert!(
        !ledger.can_make(&vec![pay(0, rich), pay(1, rich), Move::Refund(handles[3])]),
        "nor is there room for its own"
    );
    assert!(
        ledger.can_make(&vec![
            Move::Lock(from_free(rich, 1)),
            pay(0, rich),
            pay(1, rich),
            pay(2, rich),
        ]),
        "what goes into escrow first makes room"
    );
    assert!(
        ledger.can_make(&vec![pay(0, rich), pay(0, rich), pay(1, rich)]),
        "a handle pays once"
    );
    assert!(ledger.can_make(&vec![
        Move::Release(reservation),
        Move::Release(reservation),
        Move::Refund(handles[0]),
    ]));
    assert_eq!(ledger.balance(rich), acct(u64::MAX - 15, 0, 5), "nothing moved");
    assert_eq!(ledger.balance(other), acct(12, 2, 16));
}

/// Every bucket and every record is an amount; all buckets together may be more than one.
#[test]
fn only_single_buckets_are_bounded() {
    let mut ledger = MockLedger::new();
    let (a, b) = (PartyId::new(), PartyId::new());
    ledger.credit(a, Amount::new(u64::MAX - 50));
    ledger.credit(b, Amount::new(100));
    let reservation = ledger.reserve(a, Amount::new(100)).unwrap();
    let handle = ledger.lock_batch(vec![from_free(b, 60)]).unwrap()[0];
    assert!(ledger.can_make(&vec![Move::Payout(handle, a)]));
    ledger.payout(handle, a);
    assert_eq!(ledger.balance(a), acct(u64::MAX - 90, 100, 0));
    assert!(ledger.conservation_holds());
    assert!(ledger.can_credit(a, Amount::new(50)));
    assert!(!ledger.can_credit(a, Amount::new(51)), "too much was credited");
    ledger.credit(a, Amount::new(50));
    assert_eq!(ledger.balance(a), acct(u64::MAX - 40, 100, 0));
    assert!(!ledger.can_make(&vec![Move::Release(reservation)]), "free would overflow");
    assert!(ledger.can_make(&vec![
        Move::Lock(from_free(a, 60)),
        Move::Release(reservation),
    ]));
    assert!(ledger.can_reserve(a, Amount::new(u64::MAX - 100)));
    assert!(!ledger.can_reserve(a, Amount::new(u64::MAX - 99)), "reserved would overflow");
    assert!(ledger.can_reserve(a, Amount::new(u64::MAX)), "refused as too much");
    assert!(ledger.conservation_holds());
}

#[test]
fn refusals_say_what_was_missing() {
    let short = InsufficientFunds {
        party: PartyId::from(1),
        needed: Amount::new(50),
        available: Amount::new(10),
    };
    assert_eq!(
        short.message(),
        "insufficient funds for 00000000-0000-0000-0000-000000000001: needed 50, available 10"
    );
    assert_eq!(LockBatchError::from(short).message(), short.message());
    assert_eq!(
        LockBatchError::UnknownReservation(ReservationId::new(7)).message(),
        "unknown or already-consumed reservation ReservationId(7)"
    );
    assert_eq!(ReservationId::new(7).raw(), 7);
    assert_eq!(EscrowHandle::new(8).raw(), 8);
}

#[test]
fn unset_contract_is_unavailable() {
    let mut oracle = MockOracle::new();
    let c = ContractId::new("C").unwrap();
    assert_eq!(oracle.outcome(&c), None);
    oracle.set(c.clone(), OracleOutcome::Yes);
    assert_eq!(oracle.outcome(&c), Some(OracleOutcome::Yes));
    oracle.clear(&c);
    assert_eq!(oracle.outcome(&c), None);
}

#[test]
fn the_oracle_keeps_contracts_apart() {
    let mut oracle = MockOracle::new();
    let (c, d) = (ContractId::new("C").unwrap(), ContractId::new("D").unwrap());
    oracle.set(c.clone(), OracleOutcome::Yes);
    oracle.set(d.clone(), OracleOutcome::Invalid);
    oracle.set(c.clone(), OracleOutcome::No);
    assert_eq!(oracle.outcome(&c), Some(OracleOutcome::No));
    oracle.clear(&c);
    assert_eq!(oracle.outcome(&d), Some(OracleOutcome::Invalid));
}
