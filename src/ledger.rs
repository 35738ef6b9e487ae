use crate::amount::Amount;
use std::collections::HashMap;
use vstd::prelude::*;
use vstd::std_specs::hash::group_hash_axioms;

verus! {

/// What an event does; only deposits and withdrawals move money of their own.
#[derive(Clone, Copy, Debug, PartialEq, Eq, Structural)]
pub enum TransactionKind {
    Deposit { amount: Amount },
    Withdrawal { amount: Amount },
    Dispute,
    Resolve,
    Chargeback,
}

/// Where a stored deposit or withdrawal stands in its dispute lifecycle.
#[derive(Clone, Copy, Debug, PartialEq, Eq, Structural)]
pub enum TransactionStatus {
    Started,
    Disputed,
    Resolved,
    ChargedBack,
}

/// One incoming event, and, once stored, its lifecycle status.
#[derive(Clone, Copy, Debug, PartialEq, Eq, Structural)]
pub struct Transaction {
    pub kind: TransactionKind,
    pub client: u16,
    pub tx: u32,
    pub status: TransactionStatus,
}

/// The balances of one account.
#[derive(Clone, Copy, Debug, PartialEq, Eq, Structural)]
pub struct Client {
    pub available: Amount,
    pub held: Amount,
    pub locked: bool,
}

/// Why an event was rejected.
#[derive(Clone, Copy, Debug, PartialEq, Eq, Structural)]
pub enum LedgerError {
    AccountLocked,
    DuplicateTransaction,
    InsufficientFunds,
    ReferencedTransactionNotFound,
    AccountMismatch,
    AlreadyDisputed,
    AlreadyResolved,
    NotInDispute,
    NotDisputedOrResolved,
    ReferencedTransactionHasNoAmount,
    /// A balance would leave the range that an `i128` count of units can hold.
    AmountOutOfRange,
}

impl TransactionKind {
    /// The amount that the event carries, if it is a deposit or a withdrawal.
    pub open spec fn amount(self) -> Option<Amount> {
        match self {
            TransactionKind::Deposit { amount } => Some(amount),
            TransactionKind::Withdrawal { amount } => Some(amount),
            _ => None,
        }
    }

    /// Whether the event is a deposit or a withdrawal.
    pub open spec fn moves_money(self) -> bool {
        self.amount() is Some
    }
}

impl Transaction {
    pub fn new(kind: TransactionKind, client: u16, tx: u32) -> (r: Transaction)
        ensures
            r == (Transaction { kind, client, tx, status: TransactionStatus::Started }),
    {
        Transaction { kind, client, tx, status: TransactionStatus::Started }
    }

    /// The record kept in the transaction store when the event is accepted.
    pub open spec fn stored(self) -> Transaction {
        Transaction { status: TransactionStatus::Started, ..self }
    }

    /// The same transaction at another point of its lifecycle.
    pub open spec fn with_status(self, status: TransactionStatus) -> Transaction {
        Transaction { status, ..self }
    }
}

impl Client {
    /// The account as it is first created: zero balances, unlocked.
    pub open spec fn fresh() -> Client {
        Client { available: Amount { units: 0 }, held: Amount { units: 0 }, locked: false }
    }

    /// `available + held`, derived and never stored.
    pub open spec fn total(self) -> int {
        self.available.value() + self.held.value()
    }

    /// The same account with new balances, in units.
    pub open spec fn with_balances(self, available: int, held: int) -> Client {
        Client {
            available: Amount { units: available as i128 },
            held: Amount { units: held as i128 },
            ..self
        }
    }
}

impl Client {
    /// `available + held`, where it fits.
    pub fn checked_total(&self) -> (r: Option<Amount>)
        ensures
            r == (if in_range(self.total()) {
                Some(Amount { units: self.total() as i128 })
            } else {
                None::<Amount>
            }),
    {
        match self.available.units.checked_add(self.held.units) {
            Some(t) => Some(Amount { units: t }),
            None => None,
        }
    }
}

impl Default for Client {
    fn default() -> (r: Client)
        ensures
            r == Client::fresh(),
    {
        Client { available: Amount::zero(), held: Amount::zero(), locked: false }
    }
}

/// Whether `x` can be held as an `i128` count of units.
pub open spec fn in_range(x: int) -> bool {
    i128::MIN <= x <= i128::MAX
}

/// The account `id` as the store holds it, or the fresh account it would get.
pub open spec fn account_in(clients: Map<u16, Client>, id: u16) -> Client {
    if clients.contains_key(id) {
        clients[id]
    } else {
        Client::fresh()
    }
}

/// The verdict on a dispute, resolve or chargeback whose referenced transaction
/// has status `status` and carries `amount`, against the account `acct`.
pub open spec fn claim_verdict(
    kind: TransactionKind,
    status: TransactionStatus,
    amount: Option<Amount>,
    acct: Client,
) -> Result<(), LedgerError> {
    let avail = acct.available.value();
    let held = acct.held.value();
    match kind {
        TransactionKind::Dispute => match status {
            TransactionStatus::Disputed => Err(LedgerError::AlreadyDisputed),
            TransactionStatus::Resolved => Err(LedgerError::AlreadyResolved),
            TransactionStatus::ChargedBack => Err(LedgerError::AlreadyResolved),
            TransactionStatus::Started => match amount {
                None => Err(LedgerError::ReferencedTransactionHasNoAmount),
                Some(a) => if in_range(avail - a.value()) && in_range(held + a.value()) {
                    Ok(())
                } else {
                    Err(LedgerError::AmountOutOfRange)
                },
            },
        },
        TransactionKind::Resolve => if status != TransactionStatus::Disputed {
            Err(LedgerError::NotInDispute)
        } else {
            match amount {
                None => Err(LedgerError::ReferencedTransactionHasNoAmount),
                Some(a) => if in_range(avail + a.value()) && in_range(held - a.value()) {
                    Ok(())
                } else {
                    Err(LedgerError::AmountOutOfRange)
                },
            }
        },
        _ => if status != TransactionStatus::Disputed && status != TransactionStatus::Resolved {
            Err(LedgerError::NotDisputedOrResolved)
        } else {
            match amount {
                None => Err(LedgerError::ReferencedTransactionHasNoAmount),
                Some(a) => if in_range(held - a.value()) {
                    Ok(())
                } else {
                    Err(LedgerError::AmountOutOfRange)
                },
            }
        },
    }
}

/// Whether `tx` is accepted against the account `acct` and the stored
/// transactions `txs`, and if not, why.
pub open spec fn verdict(tx: Transaction, acct: Client, txs: Map<u32, Transaction>) -> Result<
    (),
    LedgerError,
> {
    if acct.locked {
        Err(LedgerError::AccountLocked)
    } else {
        match tx.kind {
            TransactionKind::Deposit { amount } => if txs.contains_key(tx.tx) {
                Err(LedgerError::DuplicateTransaction)
            } else if !in_range(acct.available.value() + amount.value()) {
                Err(LedgerError::AmountOutOfRange)
            } else {
                Ok(())
            },
            TransactionKind::Withdrawal { amount } => if txs.contains_key(tx.tx) {
                Err(LedgerError::DuplicateTransaction)
            } else if acct.available.value() < amount.value() {
                Err(LedgerError::InsufficientFunds)
            } else if !in_range(acct.available.value() - amount.value()) {
                Err(LedgerError::AmountOutOfRange)
            } else {
                Ok(())
            },
            _ => if !txs.contains_key(tx.tx) {
                Err(LedgerError::ReferencedTransactionNotFound)
            } else if txs[tx.tx].client != tx.client {
                Err(LedgerError::AccountMismatch)
            } else {
                claim_verdict(tx.kind, txs[tx.tx].status, txs[tx.tx].kind.amount(), acct)
            },
        }
    }
}

/// The account and the transaction store after `tx` has been accepted.
pub open spec fn effect(tx: Transaction, acct: Client, txs: Map<u32, Transaction>) -> (
    Client,
    Map<u32, Transaction>,
) {
    let avail = acct.available.value();
    let held = acct.held.value();
    match tx.kind {
        TransactionKind::Deposit { amount } => (
            acct.with_balances(avail + amount.value(), held),
            txs.insert(tx.tx, tx.stored()),
        ),
        TransactionKind::Withdrawal { amount } => (
            acct.with_balances(avail - amount.value(), held),
            txs.insert(tx.tx, tx.stored()),
        ),
        _ => {
            let r = txs[tx.tx];
            let a = r.kind.amount()->Some_0.value();
            match tx.kind {
                TransactionKind::Dispute => (
                    acct.with_balances(avail - a, held + a),
                    txs.insert(tx.tx, r.with_status(TransactionStatus::Disputed)),
                ),
                TransactionKind::Resolve => (
                    acct.with_balances(avail + a, held - a),
                    txs.insert(tx.tx, r.with_status(TransactionStatus::Resolved)),
                ),
                _ => (
                    Client { locked: true, ..acct.with_balances(avail, held - a) },
                    txs.insert(tx.tx, r.with_status(TransactionStatus::ChargedBack)),
                ),
            }
        },
    }
}

/// One event applied to the two stores: the verdict, the account store after
/// it and the transaction store after it. The account is created on first
/// reference whatever the verdict; a rejection changes nothing else.
pub open spec fn step(tx: Transaction, clients: Map<u16, Client>, txs: Map<u32, Transaction>) -> (
    Result<(), LedgerError>,
    Map<u16, Client>,
    Map<u32, Transaction>,
) {
    let acct = account_in(clients, tx.client);
    let v = verdict(tx, acct, txs);
    if v is Ok {
        let (acct2, txs2) = effect(tx, acct, txs);
        (v, clients.insert(tx.client, acct2), txs2)
    } else {
        (v, clients.insert(tx.client, acct), txs)
    }
}

/// Applies one event to the account store and the transaction store.
///
/// The account is looked up, or created with zero balances; a locked account
/// rejects every event. Deposits and withdrawals are stored under their
/// transaction id, which must be new; disputes, resolves and chargebacks move
/// the referenced transaction through its lifecycle and shift its amount
/// between `available` and `held`.
pub fn handle(
    tx: &Transaction,
    client_store: &mut HashMap<u16, Client>,
    tx_store: &mut HashMap<u32, Transaction>,
) -> (r: Result<(), LedgerError>)
    ensures
        (r, final(client_store)@, final(tx_store)@) == step(
            *tx,
            old(client_store)@,
            old(tx_store)@,
        ),
{
    broadcast use group_hash_axioms;

    let mut client = match client_store.get(&tx.client) {
        Some(c) => *c,
        None => Client::default(),
    };
    client_store.insert(tx.client, client);
    if client.locked {
        return Err(LedgerError::AccountLocked);
    }
    let avail = client.available.units;
    let held = client.held.units;
    match tx.kind {
        TransactionKind::Deposit { amount } => {
            if tx_store.contains_key(&tx.tx) {
                return Err(LedgerError::DuplicateTransaction);
            }
            let new_avail = match avail.checked_add(amount.units) {
                Some(v) => v,
                None => return Err(LedgerError::AmountOutOfRange),
            };
            client.available = Amount { units: new_avail };
            client_store.insert(tx.client, client);
            tx_store.insert(tx.tx, Transaction::new(tx.kind, tx.client, tx.tx));
            Ok(())
        },
        TransactionKind::Withdrawal { amount } => {
            if tx_store.contains_key(&tx.tx) {
                return Err(LedgerError::DuplicateTransaction);
            }
            if avail < amount.units {
                return Err(LedgerError::InsufficientFunds);
            }
            let new_avail = match avail.checked_sub(amount.units) {
                Some(v) => v,
                None => return Err(LedgerError::AmountOutOfRange),
            };
            client.available = Amount { units: new_avail };
            client_store.insert(tx.client, client);
            tx_store.insert(tx.tx, Transaction::new(tx.kind, tx.client, tx.tx));
            Ok(())
        },
        _ => {
            let mut referenced = match tx_store.get(&tx.tx) {
                Some(t) => *t,
                None => return Err(LedgerError::ReferencedTransactionNotFound),
            };
            if referenced.client != tx.client {
                return Err(LedgerError::AccountMismatch);
            }
            let status = referenced.status;
            match tx.kind {
                TransactionKind::Dispute => {
                    match status {
                        TransactionStatus::Disputed => {
                            return Err(LedgerError::AlreadyDisputed);
                        },
                        TransactionStatus::Resolved | TransactionStatus::ChargedBack => {
                            return Err(LedgerError::AlreadyResolved);
                        },
                        TransactionStatus::Started => {},
                    }
                    let a = match referenced.kind {
                        TransactionKind::Deposit { amount } => amount.units,
                        TransactionKind::Withdrawal { amount } => amount.units,
                        _ => return Err(LedgerError::ReferencedTransactionHasNoAmount),
                    };
                    let (new_avail, new_held) = match (avail.checked_sub(a), held.checked_add(a)) {
                        (Some(x), Some(y)) => (x, y),
                        _ => return Err(LedgerError::AmountOutOfRange),
                    };
                    client.available = Amount { units: new_avail };
                    client.held = Amount { units: new_held };
                    referenced.status = TransactionStatus::Disputed;
                },
                TransactionKind::Resolve => {
                    match status {
                        TransactionStatus::Disputed => {},
                        _ => return Err(LedgerError::NotInDispute),
                    }
                    let a = match referenced.kind {
                        TransactionKind::Deposit { amount } => amount.units,
                        TransactionKind::Withdrawal { amount } => amount.units,
                        _ => return Err(LedgerError::ReferencedTransactionHasNoAmount),
                    };
                    let (new_avail, new_held) = match (avail.checked_add(a), held.checked_sub(a)) {
                        (Some(x), Some(y)) => (x, y),
                        _ => return Err(LedgerError::AmountOutOfRange),
                    };
                    client.available = Amount { units: new_avail };
                    client.held = Amount { units: new_held };
                    referenced.status = TransactionStatus::Resolved;
                },
                _ => {
                    match status {
                        TransactionStatus::Disputed | TransactionStatus::Resolved => {},
                        _ => return Err(LedgerError::NotDisputedOrResolved),
                    }
                    let a = match referenced.kind {
                        TransactionKind::Deposit { amount } => amount.units,
                        TransactionKind::Withdrawal { amount } => amount.units,
                        _ => return Err(LedgerError::ReferencedTransactionHasNoAmount),
                    };
                    let new_held = match held.checked_sub(a) {
                        Some(y) => y,
                        None => return Err(LedgerError::AmountOutOfRange),
                    };
                    client.held = Amount { units: new_held };
                    client.locked = true;
                    referenced.status = TransactionStatus::ChargedBack;
                },
            }
            client_store.insert(tx.client, client);
            tx_store.insert(tx.tx, referenced);
            Ok(())
        },
    }
}

/// The two stores after applying `events` in order, starting from `clients`
/// and `txs`.
pub open spec fn replay(
    events: Seq<Transaction>,
    clients: Map<u16, Client>,
    txs: Map<u32, Transaction>,
) -> (Map<u16, Client>, Map<u32, Transaction>)
    decreases events.len(),
{
    if events.len() == 0 {
        (clients, txs)
    } else {
        let (_, c2, t2) = step(events[0], clients, txs);
        replay(events.drop_first(), c2, t2)
    }
}

/// Appending one event to a replay applies it to the stores the replay ends in.
pub proof fn lemma_replay_push(
    events: Seq<Transaction>,
    tx: Transaction,
    clients: Map<u16, Client>,
    txs: Map<u32, Transaction>,
)
    ensures
        ({
            let (c1, t1) = replay(events, clients, txs);
            let (_, c2, t2) = step(tx, c1, t1);
            replay(events.push(tx), clients, txs) == (c2, t2)
        }),
    decreases events.len(),
{
    let pushed = events.push(tx);
    if events.len() > 0 {
        let (_, c2, t2) = step(events[0], clients, txs);
        assert(pushed[0] == events[0]);
        assert(pushed.drop_first() =~= events.drop_first().push(tx));
        lemma_replay_push(events.drop_first(), tx, c2, t2);
        assert(replay(pushed, clients, txs) == replay(pushed.drop_first(), c2, t2));
    } else {
        let (_, c2, t2) = step(tx, clients, txs);
        assert(pushed[0] == tx);
        assert(pushed.drop_first() =~= Seq::<Transaction>::empty());
        assert(replay(pushed, clients, txs) == replay(pushed.drop_first(), c2, t2));
        assert(replay(events, clients, txs) == (clients, txs));
    }
}

/// Applies `events` in order, as [`handle`] would one by one, and returns the
/// verdict on each.
pub fn handle_all(
    events: &Vec<Transaction>,
    client_store: &mut HashMap<u16, Client>,
    tx_store: &mut HashMap<u32, Transaction>,
) -> (r: Vec<Result<(), LedgerError>>)
    ensures
        (final(client_store)@, final(tx_store)@) == replay(
            events@,
            old(client_store)@,
            old(tx_store)@,
        ),
        r@.len() == events@.len(),
        forall|i: int|
            0 <= i < events@.len() ==> {
                let (c, t) = replay(events@.take(i), old(client_store)@, old(tx_store)@);
                #[trigger] r@[i] == step(events@[i], c, t).0
            },
{
    let ghost c0 = client_store@;
    let ghost t0 = tx_store@;
    let mut results: Vec<Result<(), LedgerError>> = Vec::new();
    let mut i: usize = 0;
    assert(events@.take(0) =~= Seq::<Transaction>::empty());
    while i < events.len()
        invariant
            0 <= i <= events@.len(),
            (client_store@, tx_store@) == replay(events@.take(i as int), c0, t0),
            results@.len() == i,
            forall|j: int|
                0 <= j < i ==> {
                    let (c, t) = replay(events@.take(j), c0, t0);
                    #[trigger] results@[j] == step(events@[j], c, t).0
                },
        decreases events@.len() - i,
    {
        let ghost prefix = events@.take(i as int);
        let r = handle(&events[i], client_store, tx_store);
        proof {
            lemma_replay_push(prefix, events@[i as int], c0, t0);
            assert(events@.take(i as int + 1) =~= prefix.push(events@[i as int]));
        }
        results.push(r);
        i = i + 1;
    }
    assert(events@.take(events@.len() as int) =~= events@);
    results
}

} // verus!
