//! Party balances in three buckets: free, reserved for a quote, and escrowed for a request. This
//! is what the engine asks of a ledger; `crate::mock` holds one in memory.
use vstd::prelude::*;
use vstd::std_specs::convert::FromSpecImpl;
use vstd::string::*;
use crate::domain::ids::PartyId;
use crate::domain::money::Amount;
use crate::{seqs, text};

pub mod effects;
pub mod laws;

verus! {

/// Handle to the hold on a market maker's funds for one quote.
#[derive(Debug, Clone, Copy, PartialEq, Eq, Structural, PartialOrd, Ord, Hash)]
pub struct ReservationId(pub u64);

impl ReservationId {
    pub fn new(raw: u64) -> (id: ReservationId)
        ensures
            id == ReservationId(raw),
    {
        ReservationId(raw)
    }

    pub fn raw(self) -> (raw: u64)
        ensures
            raw == self.0,
    {
        self.0
    }
}

/// Handle to one party's chunk of one leg in escrow. A leg has two: the Yes-buyer's and the
/// Yes-seller's.
#[derive(Debug, Clone, Copy, PartialEq, Eq, Structural, PartialOrd, Ord, Hash)]
pub struct EscrowHandle(pub u64);

impl EscrowHandle {
    pub fn new(raw: u64) -> (handle: EscrowHandle)
        ensures
            handle == EscrowHandle(raw),
    {
        EscrowHandle(raw)
    }

    pub fn raw(self) -> (raw: u64)
        ensures
            raw == self.0,
    {
        self.0
    }
}

/// One side of one leg, to be moved into escrow.
#[derive(Debug, Clone, Copy, PartialEq, Eq, Structural)]
pub enum LockItem {
    /// The maker's side: a reservation becomes escrow.
    FromReservation(ReservationId),
    /// The requester's side: taken from its free balance.
    FromFree { party: PartyId, amount: Amount },
}

/// A party's free balance does not cover `needed`.
#[derive(Debug, Clone, Copy, PartialEq, Eq, Structural)]
pub struct InsufficientFunds {
    pub party: PartyId,
    pub needed: Amount,
    pub available: Amount,
}

impl InsufficientFunds {
    pub open spec fn spec_message(self) -> Seq<char> {
        "insufficient funds for "@ + text::hyphenated(self.party.0) + ": needed "@ + text::decimal(
            self.needed.0 as nat,
        ) + ", available "@ + text::decimal(self.available.0 as nat)
    }

    pub fn message(self) -> (s: String)
        ensures
            s@ == self.spec_message(),
    {
        let mut s = "insufficient funds for ".to_owned();
        s.append(self.party.text().as_str());
        s.append(": needed ");
        s.append(self.needed.text().as_str());
        s.append(", available ");
        s.append(self.available.text().as_str());
        s
    }
}

/// Why a batch was refused. Nothing has moved then.
#[derive(Debug, Clone, Copy, PartialEq, Eq, Structural)]
pub enum LockBatchError {
    InsufficientFunds(InsufficientFunds),
    UnknownReservation(ReservationId),
}

impl LockBatchError {
    pub open spec fn spec_message(self) -> Seq<char> {
        match self {
            LockBatchError::InsufficientFunds(e) => e.spec_message(),
            LockBatchError::UnknownReservation(id) => {
                "unknown or already-consumed reservation ReservationId("@ + text::decimal(
                    id.0 as nat,
                ) + ")"@
            },
        }
    }

    pub fn message(self) -> (s: String)
        ensures
            s@ == self.spec_message(),
    {
        match self {
            LockBatchError::InsufficientFunds(e) => e.message(),
            LockBatchError::UnknownReservation(id) => {
                let mut s = "unknown or already-consumed reservation ReservationId(".to_owned();
                s.append(text::decimal_text(id.0).as_str());
                s.append(")");
                s
            },
        }
    }
}

impl From<InsufficientFunds> for LockBatchError {
    fn from(e: InsufficientFunds) -> (error: LockBatchError) {
        LockBatchError::InsufficientFunds(e)
    }
}

impl FromSpecImpl<InsufficientFunds> for LockBatchError {
    open spec fn obeys_from_spec() -> bool {
        true
    }

    open spec fn from_spec(e: InsufficientFunds) -> LockBatchError {
        LockBatchError::InsufficientFunds(e)
    }
}

/// One party's balances.
#[derive(Debug, Clone, Copy, PartialEq, Eq, Structural)]
pub struct LedgerAccount {
    pub free: Amount,
    pub reserved: Amount,
    pub escrowed: Amount,
}

impl Default for LedgerAccount {
    fn default() -> (account: LedgerAccount)
        ensures
            account == LedgerAccount::empty(),
    {
        LedgerAccount { free: Amount(0), reserved: Amount(0), escrowed: Amount(0) }
    }
}

impl LedgerAccount {
    pub open spec fn empty() -> LedgerAccount {
        LedgerAccount { free: Amount(0), reserved: Amount(0), escrowed: Amount(0) }
    }

    /// The three buckets together.
    pub fn total(self) -> (total: Amount)
        requires
            self@.sum() <= u64::MAX,
        ensures
            total.0 == self@.sum(),
    {
        self.free + self.reserved + self.escrowed
    }
}

impl View for LedgerAccount {
    type V = Balances;

    open spec fn view(&self) -> Balances {
        Balances {
            free: self.free.0 as int,
            reserved: self.reserved.0 as int,
            escrowed: self.escrowed.0 as int,
        }
    }
}

/// What one party has in each bucket, however much that is.
pub struct Balances {
    pub free: int,
    pub reserved: int,
    pub escrowed: int,
}

impl Balances {
    pub open spec fn empty() -> Balances {
        Balances { free: 0, reserved: 0, escrowed: 0 }
    }

    /// The three buckets together.
    pub open spec fn sum(self) -> int {
        self.free + self.reserved + self.escrowed
    }

    /// The balances with this much free.
    pub open spec fn with_free(self, free: int) -> Balances {
        Balances { free, ..self }
    }

    /// The balances with this much reserved.
    pub open spec fn with_reserved(self, reserved: int) -> Balances {
        Balances { reserved, ..self }
    }

    /// The balances with this much in escrow.
    pub open spec fn with_escrowed(self, escrowed: int) -> Balances {
        Balances { escrowed, ..self }
    }

    /// The account with these balances.
    pub open spec fn account(self) -> LedgerAccount {
        LedgerAccount {
            free: Amount(self.free as u64),
            reserved: Amount(self.reserved as u64),
            escrowed: Amount(self.escrowed as u64),
        }
    }
}

/// A hold on one party's funds.
#[derive(Debug, Clone, Copy, PartialEq, Eq, Structural)]
pub struct Hold {
    pub party: PartyId,
    pub amount: Amount,
}

/// What a handle stands for.
#[derive(Debug, Clone, Copy, PartialEq, Eq, Structural)]
pub enum Slot {
    Reserved(Hold),
    Escrowed(Hold),
    /// The hold was released, paid out, refunded, or turned into another.
    Spent,
}

/// One party's balances and what has come and gone, however much that is.
pub struct Row {
    pub account: Balances,
    /// What was credited, if anything ever was.
    pub credited: Option<int>,
    pub paid_to_others: int,
    pub received_from_others: int,
}

impl Row {
    pub open spec fn empty() -> Row {
        Row {
            account: Balances::empty(),
            credited: None,
            paid_to_others: 0,
            received_from_others: 0,
        }
    }

    pub open spec fn credits(self) -> int {
        match self.credited {
            Some(amount) => amount,
            None => 0,
        }
    }

    pub open spec fn with_account(self, account: Balances) -> Row {
        Row { account, ..self }
    }

    /// Whether the balances are what was credited, less what was paid to others, and what was
    /// received from others, and nothing is overdrawn.
    pub open spec fn balanced(self) -> bool {
        &&& self.account.sum() + self.paid_to_others == self.credits() + self.received_from_others
        &&& 0 <= self.account.free
        &&& 0 <= self.credits()
        &&& 0 <= self.paid_to_others
        &&& 0 <= self.received_from_others
    }

    /// Whether every bucket and every record of the row is an amount.
    pub open spec fn fits(self) -> bool {
        &&& 0 <= self.account.free <= u64::MAX
        &&& 0 <= self.account.reserved <= u64::MAX
        &&& 0 <= self.account.escrowed <= u64::MAX
        &&& 0 <= self.credits() <= u64::MAX
        &&& 0 <= self.paid_to_others <= u64::MAX
        &&& 0 <= self.received_from_others <= u64::MAX
    }
}

/// What a slot reserves of a party's funds.
pub open spec fn reserved_part(slot: Slot, party: PartyId) -> int {
    match slot {
        Slot::Reserved(hold) => if hold.party == party {
            hold.amount.0 as int
        } else {
            0
        },
        _ => 0,
    }
}

/// What a slot has of a party's funds in escrow.
pub open spec fn escrowed_part(slot: Slot, party: PartyId) -> int {
    match slot {
        Slot::Escrowed(hold) => if hold.party == party {
            hold.amount.0 as int
        } else {
            0
        },
        _ => 0,
    }
}

/// What an item takes from a party's free balance.
pub open spec fn free_part(item: LockItem, party: PartyId) -> int {
    match item {
        LockItem::FromReservation(_) => 0,
        LockItem::FromFree { party: p, amount } => if p == party {
            amount.0 as int
        } else {
            0
        },
    }
}

/// What the first `k` items of a batch take from a party's free balance together.
pub open spec fn pending(items: Seq<LockItem>, k: int, party: PartyId) -> int {
    seqs::sum_by(items.take(k), |item: LockItem| free_part(item, party))
}

/// The contents of a ledger. A handle is the index of its slot.
#[verifier::ext_equal]
pub struct LedgerModel {
    /// Every party that has a row, in the order in which they came.
    pub parties: Seq<u128>,
    pub rows: Map<u128, Row>,
    pub slots: Seq<Slot>,
    /// How many batches were tried, as far as a `usize` counts.
    pub lock_batch_calls: usize,
}

impl LedgerModel {
    pub open spec fn empty() -> LedgerModel {
        LedgerModel {
            parties: Seq::empty(),
            rows: Map::empty(),
            slots: Seq::empty(),
            lock_batch_calls: 0,
        }
    }

    pub open spec fn row(self, party: PartyId) -> Row {
        if self.rows.contains_key(party.0) {
            self.rows[party.0]
        } else {
            Row::empty()
        }
    }

    pub open spec fn account(self, party: PartyId) -> Balances {
        self.row(party).account
    }

    /// Whether every bucket and every record of every row is an amount.
    pub open spec fn fits(self) -> bool {
        forall|p: u128| (#[trigger] self.row(PartyId(p))).fits()
    }

    pub open spec fn with_row(self, party: PartyId, row: Row) -> LedgerModel {
        LedgerModel {
            parties: if self.rows.contains_key(party.0) {
                self.parties
            } else {
                self.parties.push(party.0)
            },
            rows: self.rows.insert(party.0, row),
            ..self
        }
    }

    pub open spec fn with_account(self, party: PartyId, account: Balances) -> LedgerModel {
        self.with_row(party, self.row(party).with_account(account))
    }

    pub open spec fn with_slot(self, handle: u64, slot: Slot) -> LedgerModel {
        LedgerModel { slots: self.slots.update(handle as int, slot), ..self }
    }

    pub open spec fn with_new_slot(self, slot: Slot) -> LedgerModel {
        LedgerModel { slots: self.slots.push(slot), ..self }
    }

    /// The hold behind a reservation that still stands.
    pub open spec fn reservation(self, id: ReservationId) -> Option<Hold> {
        if id.0 < self.slots.len() {
            match self.slots[id.0 as int] {
                Slot::Reserved(hold) => Some(hold),
                _ => None,
            }
        } else {
            None
        }
    }

    /// The hold behind a chunk that is still in escrow.
    pub open spec fn escrow(self, handle: EscrowHandle) -> Option<Hold> {
        if handle.0 < self.slots.len() {
            match self.slots[handle.0 as int] {
                Slot::Escrowed(hold) => Some(hold),
                _ => None,
            }
        } else {
            None
        }
    }

    pub open spec fn reserved_for(self, party: PartyId) -> int {
        seqs::sum_by(self.slots, |slot: Slot| reserved_part(slot, party))
    }

    pub open spec fn escrowed_for(self, party: PartyId) -> int {
        seqs::sum_by(self.slots, |slot: Slot| escrowed_part(slot, party))
    }

    /// The sum of `f` over the rows.
    pub open spec fn sum_rows(self, f: spec_fn(Row) -> int) -> int {
        seqs::sum_by(self.parties, |p: u128| f(self.rows[p]))
    }

    /// Everything held, in whichever bucket.
    pub open spec fn held_total(self) -> int {
        self.sum_rows(|row: Row| row.account.sum())
    }

    pub open spec fn credited_total(self) -> int {
        self.sum_rows(|row: Row| row.credits())
    }

    pub open spec fn escrowed_total(self) -> int {
        self.sum_rows(|row: Row| row.account.escrowed)
    }

    pub open spec fn reserved_total(self) -> int {
        self.sum_rows(|row: Row| row.account.reserved)
    }

    pub open spec fn paid_total(self) -> int {
        self.sum_rows(|row: Row| row.paid_to_others)
    }

    pub open spec fn received_total(self) -> int {
        self.sum_rows(|row: Row| row.received_from_others)
    }

    /// Whether a party's row is balanced, and what it has reserved and in escrow is what the
    /// slots say.
    pub open spec fn row_ok(self, party: PartyId) -> bool {
        &&& self.row(party).balanced()
        &&& self.account(party).reserved == self.reserved_for(party)
        &&& self.account(party).escrowed == self.escrowed_for(party)
    }

    /// What every operation keeps: there is one row to a party, every row is balanced and agrees
    /// with the slots, and what was paid was received.
    pub open spec fn wf(self) -> bool {
        &&& self.parties.no_duplicates()
        &&& forall|p: u128| #[trigger] self.rows.contains_key(p) <==> self.parties.contains(p)
        &&& forall|p: u128| #[trigger] self.row_ok(PartyId(p))
        &&& self.paid_total() == self.received_total()
    }

    /// `amount` more on the free balance of `party`.
    pub open spec fn credit(self, party: PartyId, amount: Amount) -> LedgerModel {
        let row = self.row(party);
        self.with_row(
            party,
            Row {
                account: row.account.with_free(row.account.free + amount.0),
                credited: Some(row.credits() + amount.0),
                ..row
            },
        )
    }

    /// `amount` moved from free to reserved, under the next handle.
    pub open spec fn reserve(self, party: PartyId, amount: Amount) -> LedgerModel {
        let account = self.account(party);
        self.with_account(
            party,
            account.with_free(account.free - amount.0).with_reserved(
                account.reserved + amount.0,
            ),
        ).with_new_slot(Slot::Reserved(Hold { party, amount }))
    }

    /// A reservation returned to free; one that does not stand changes nothing.
    pub open spec fn release(self, id: ReservationId) -> LedgerModel {
        match self.reservation(id) {
            Some(hold) => {
                let account = self.account(hold.party);
                self.with_account(
                    hold.party,
                    account.with_reserved(account.reserved - hold.amount.0).with_free(
                        account.free + hold.amount.0,
                    ),
                ).with_slot(id.0, Slot::Spent)
            },
            None => self,
        }
    }

    /// One item moved into escrow, under the next handle.
    pub open spec fn lock_item(self, item: LockItem) -> LedgerModel {
        match item {
            LockItem::FromReservation(id) => {
                let hold = self.reservation(id)->Some_0;
                let account = self.account(hold.party);
                self.with_account(
                    hold.party,
                    account.with_reserved(account.reserved - hold.amount.0).with_escrowed(
                        account.escrowed + hold.amount.0,
                    ),
                ).with_slot(id.0, Slot::Spent).with_new_slot(Slot::Escrowed(hold))
            },
            LockItem::FromFree { party, amount } => {
                let account = self.account(party);
                self.with_account(
                    party,
                    account.with_free(account.free - amount.0).with_escrowed(
                        account.escrowed + amount.0,
                    ),
                ).with_new_slot(Slot::Escrowed(Hold { party, amount }))
            },
        }
    }

    /// The first `k` items moved into escrow, one after the other.
    pub open spec fn lock_items(self, items: Seq<LockItem>, k: int) -> LedgerModel
        decreases k,
    {
        if k <= 0 {
            self
        } else {
            self.lock_items(items, k - 1).lock_item(items[k - 1])
        }
    }

    /// What is wrong with the `i`-th item of a batch: its reservation does not stand or comes
    /// twice, or its party's free balance does not cover all that the batch has asked of it so
    /// far.
    pub open spec fn item_error(self, items: Seq<LockItem>, i: int) -> Option<LockBatchError> {
        match items[i] {
            LockItem::FromReservation(id) => {
                if self.reservation(id) is None || (exists|j: int|
                    0 <= j < i && items[j] == LockItem::FromReservation(id)) {
                    Some(LockBatchError::UnknownReservation(id))
                } else {
                    None
                }
            },
            LockItem::FromFree { party, amount } => {
                let needed = pending(items, i + 1, party);
                let available = Amount(self.account(party).free as u64);
                if needed > self.account(party).free {
                    Some(
                        LockBatchError::InsufficientFunds(
                            InsufficientFunds {
                                party,
                                needed: Amount(
                                    if needed <= u64::MAX {
                                        needed as u64
                                    } else {
                                        u64::MAX
                                    },
                                ),
                                available,
                            },
                        ),
                    )
                } else {
                    None
                }
            },
        }
    }

    /// What is wrong with the first bad item from the `i`-th on.
    pub open spec fn error_from(self, items: Seq<LockItem>, i: int) -> Option<LockBatchError>
        decreases items.len() - i,
    {
        if i >= items.len() {
            None
        } else {
            match self.item_error(items, i) {
                Some(e) => Some(e),
                None => self.error_from(items, i + 1),
            }
        }
    }

    /// What is wrong with a batch.
    pub open spec fn batch_error(self, items: Seq<LockItem>) -> Option<LockBatchError> {
        self.error_from(items, 0)
    }

    /// One more batch tried.
    pub open spec fn counted(self) -> LedgerModel {
        LedgerModel {
            lock_batch_calls: if self.lock_batch_calls < usize::MAX {
                (self.lock_batch_calls + 1) as usize
            } else {
                usize::MAX
            },
            ..self
        }
    }

    /// Every item of the batch moved into escrow, or nothing.
    pub open spec fn lock_batch(self, items: Seq<LockItem>) -> LedgerModel {
        if self.batch_error(items) is None {
            self.counted().lock_items(items, items.len() as int)
        } else {
            self.counted()
        }
    }

    /// The handles that a batch is given: the next ones, one to an item, in order.
    pub open spec fn batch_handles(self, items: Seq<LockItem>) -> Seq<EscrowHandle> {
        Seq::new(items.len(), |i: int| EscrowHandle((self.slots.len() + i) as u64))
    }

    /// A chunk of escrow paid to the free balance of `to`; a handle with nothing behind it
    /// changes nothing.
    pub open spec fn payout(self, handle: EscrowHandle, to: PartyId) -> LedgerModel {
        match self.escrow(handle) {
            None => self,
            Some(hold) => {
                if to == hold.party {
                    self.refund(handle)
                } else {
                    let from = self.row(hold.party);
                    let row = self.row(to);
                    let amount = hold.amount.0;
                    self.with_row(
                        hold.party,
                        Row {
                            account: from.account.with_escrowed(from.account.escrowed - amount),
                            paid_to_others: from.paid_to_others + amount,
                            ..from
                        },
                    ).with_row(
                        to,
                        Row {
                            account: row.account.with_free(row.account.free + amount),
                            received_from_others: row.received_from_others + amount,
                            ..row
                        },
                    ).with_slot(handle.0, Slot::Spent)
                }
            },
        }
    }

    /// A chunk of escrow returned to the party that posted it; a handle with nothing behind it
    /// changes nothing.
    pub open spec fn refund(self, handle: EscrowHandle) -> LedgerModel {
        match self.escrow(handle) {
            Some(hold) => {
                let account = self.account(hold.party);
                self.with_account(
                    hold.party,
                    account.with_escrowed(account.escrowed - hold.amount.0).with_free(
                        account.free + hold.amount.0,
                    ),
                ).with_slot(handle.0, Slot::Spent)
            },
            None => self,
        }
    }

    /// One move made.
    pub open spec fn step(self, way: Move) -> LedgerModel {
        match way {
            Move::Release(id) => self.release(id),
            Move::Lock(item) => self.lock_item(item),
            Move::Payout(handle, to) => self.payout(handle, to),
            Move::Refund(handle) => self.refund(handle),
        }
    }

    /// Moves made one after the other.
    pub open spec fn run(self, moves: Seq<Move>) -> LedgerModel
        decreases moves.len(),
    {
        if moves.len() == 0 {
            self
        } else {
            self.run(moves.drop_last()).step(moves.last())
        }
    }

    /// Whether moves can be made one after the other with every bucket and every record an amount
    /// all along.
    pub open spec fn has_room(self, moves: Seq<Move>) -> bool
        decreases moves.len(),
    {
        moves.len() == 0 || (self.has_room(moves.drop_last()) && self.run(moves).fits())
    }

    /// Whether the items of a batch can be moved into escrow one after the other with every
    /// bucket an amount all along.
    pub open spec fn has_room_for(self, items: Seq<LockItem>) -> bool {
        forall|k: int| 0 <= k <= items.len() ==> (#[trigger] self.lock_items(items, k)).fits()
    }
}

/// A way in which funds move.
#[derive(Debug, Clone, Copy)]
pub enum Move {
    Release(ReservationId),
    Lock(LockItem),
    Payout(EscrowHandle, PartyId),
    Refund(EscrowHandle),
}

/// Funds of parties, moved only in the ways below.
pub trait Ledger: Sized {
    spec fn model(&self) -> LedgerModel;

    /// Adds `amount` to the free balance of `party`.
    fn credit(&mut self, party: PartyId, amount: Amount)
        requires
            old(self).model().wf(),
            old(self).model().credit(party, amount).fits(),
        ensures
            final(self).model() == old(self).model().credit(party, amount),
            final(self).model().wf(),
    ;

    /// Moves `amount` from free to reserved, or does nothing if free is short.
    fn reserve(&mut self, party: PartyId, amount: Amount) -> (id: Result<
        ReservationId,
        InsufficientFunds,
    >)
        requires
            old(self).model().wf(),
            amount.0 <= old(self).model().account(party).free ==> old(self).model().reserve(
                party,
                amount,
            ).fits(),
        ensures
            ({
                let before = old(self).model();
                let available = before.account(party).account().free;
                if before.account(party).free >= amount.0 {
                    &&& id == Ok::<ReservationId, InsufficientFunds>(
                        ReservationId(before.slots.len() as u64),
                    )
                    &&& before.slots.len() < u64::MAX
                    &&& final(self).model() == before.reserve(party, amount)
                } else {
                    &&& id == Err::<ReservationId, InsufficientFunds>(
                        InsufficientFunds { party, needed: amount, available },
                    )
                    &&& final(self).model() == before
                }
            }),
            final(self).model().wf(),
    ;

    /// Returns a reservation to free. A handle that is unknown or used up changes nothing.
    fn release(&mut self, reservation: ReservationId)
        requires
            old(self).model().wf(),
            old(self).model().release(reservation).fits(),
        ensures
            final(self).model() == old(self).model().release(reservation),
            final(self).model().wf(),
    ;

    /// Moves every item into escrow, or nothing at all. Gives one handle per item, in order.
    fn lock_batch(&mut self, items: Vec<LockItem>) -> (handles: Result<
        Vec<EscrowHandle>,
        LockBatchError,
    >)
        requires
            old(self).model().wf(),
            old(self).model().batch_error(items@) is None
                ==> old(self).model().counted().has_room_for(items@),
        ensures
            final(self).model() == old(self).model().lock_batch(items@),
            match old(self).model().batch_error(items@) {
                Some(e) => handles is Err && handles->Err_0 == e,
                None => {
                    &&& handles is Ok
                    &&& handles->Ok_0@ == old(self).model().batch_handles(items@)
                    &&& old(self).model().slots.len() + items@.len() <= u64::MAX
                },
            },
            final(self).model().wf(),
    ;

    /// What is wrong with a batch, if anything.
    fn check_batch(&self, items: &Vec<LockItem>) -> (error: Option<LockBatchError>)
        ensures
            error == self.model().batch_error(items@),
    ;

    /// Pays a chunk of escrow to the free balance of `to`. The handle is used up: once more
    /// changes nothing.
    fn payout(&mut self, escrow: EscrowHandle, to: PartyId)
        requires
            old(self).model().wf(),
            old(self).model().payout(escrow, to).fits(),
        ensures
            final(self).model() == old(self).model().payout(escrow, to),
            final(self).model().wf(),
    ;

    /// Returns a chunk of escrow to the party that posted it. The handle is used up: once more
    /// changes nothing.
    fn refund(&mut self, escrow: EscrowHandle)
        requires
            old(self).model().wf(),
            old(self).model().refund(escrow).fits(),
        ensures
            final(self).model() == old(self).model().refund(escrow),
            final(self).model().wf(),
    ;

    fn balance(&self, party: PartyId) -> (account: LedgerAccount)
        ensures
            account@ == self.model().account(party),
    ;

    /// Every bucket and every record is an amount.
    proof fn amounts_fit(&self)
        ensures
            self.model().fits(),
    ;

    /// Whether there is room for these moves, one after the other.
    fn can_make(&self, moves: &Vec<Move>) -> (b: bool)
        requires
            self.model().wf(),
            forall|k: int|
                0 <= k < moves@.len() ==> ((#[trigger] moves@[k]) matches Move::Lock(item)
                    ==> laws::lockable(self.model().run(moves@.take(k)), item)),
        ensures
            b == self.model().has_room(moves@),
    ;

    /// Whether the balances of `party` have room for `amount` more.
    fn can_credit(&self, party: PartyId, amount: Amount) -> (b: bool)
        requires
            self.model().wf(),
        ensures
            b == self.model().credit(party, amount).fits(),
    ;

    /// Whether the balances of `party` have room for `amount` of its free balance to be reserved.
    fn can_reserve(&self, party: PartyId, amount: Amount) -> (b: bool)
        requires
            self.model().wf(),
        ensures
            b == (amount.0 <= self.model().account(party).free ==> self.model().reserve(
                party,
                amount,
            ).fits()),
    ;
}

} // verus!
