use ledger_replay::{
    handle, handle_all, Amount, Client, LedgerError, Transaction, TransactionKind,
    TransactionStatus,
};
use std::collections::HashMap;

fn units(n: i128) -> Amount {
    Amount::from_units(n)
}

fn deposit(client: u16, tx: u32, amount: i128) -> Transaction {
    Transaction::new(TransactionKind::Deposit { amount: units(amount) }, client, tx)
}

fn withdrawal(client: u16, tx: u32, amount: i128) -> Transaction {
    Transaction::new(TransactionKind::Withdrawal { amount: units(amount) }, client, tx)
}

fn claim(kind: TransactionKind, client: u16, tx: u32) -> Transaction {
    Transaction::new(kind, client, tx)
}

struct Stores {
    clients: HashMap<u16, Client>,
    txs: HashMap<u32, Transaction>,
}

impl Stores {
    fn new() -> Stores {
        Stores { clients: HashMap::new(), txs: HashMap::new() }
    }

    fn apply(&mut self, tx: Transaction) -> Result<(), LedgerError> {
        handle(&tx, &mut self.clients, &mut self.txs)
    }

    fn account(&self, id: u16) -> Client {
        *self.clients.get(&id).unwrap()
    }
}

fn total(c: &Client) -> i128 {
    c.available.units + c.held.units
}

#[test]
fn new_transaction_starts_open() {
    let t = deposit(3, 9, 100);
    assert_eq!(t.status, TransactionStatus::Started);
    assert_eq!(t.client, 3);
    assert_eq!(t.tx, 9);
}

#[test]
fn duplicate_deposit_is_rejected_and_changes_nothing() {
    let mut s = Stores::new();
    assert_eq!(s.apply(deposit(1, 1, 10_000)), Ok(()));
    let before = s.account(1);
    assert_eq!(s.apply(deposit(1, 1, 5_000)), Err(LedgerError::DuplicateTransaction));
    assert_eq!(s.apply(withdrawal(1, 1, 5_000)), Err(LedgerError::DuplicateTransaction));
    assert_eq!(s.account(1), before);
    assert_eq!(s.txs.get(&1).unwrap().kind, TransactionKind::Deposit { amount: units(10_000) });
}

#[test]
fn deposits_and_withdrawals_add_up() {
    let mut s = Stores::new();
    assert_eq!(s.apply(deposit(1, 1, 30_000)), Ok(()));
    assert_eq!(s.apply(withdrawal(1, 2, 12_500)), Ok(()));
    assert_eq!(s.apply(withdrawal(1, 3, 50_000)), Err(LedgerError::InsufficientFunds));
    assert_eq!(s.apply(deposit(1, 4, 7)), Ok(()));
    assert_eq!(s.apply(withdrawal(1, 5, 17_507)), Ok(()));
    let a = s.account(1);
    assert_eq!(a.available, units(0));
    assert_eq!(a.held, units(0));
    assert!(!s.txs.contains_key(&3));
}

#[test]
fn dispute_then_resolve_restores_balances() {
    let mut s = Stores::new();
    s.apply(deposit(1, 1, 20_000)).unwrap();
    s.apply(deposit(1, 2, 5_000)).unwrap();
    let before = s.account(1);
    assert_eq!(s.apply(claim(TransactionKind::Dispute, 1, 1)), Ok(()));
    let disputed = s.account(1);
    assert_eq!(disputed.available, units(5_000));
    assert_eq!(disputed.held, units(20_000));
    assert_eq!(total(&disputed), total(&before));
    assert_eq!(s.txs.get(&1).unwrap().status, TransactionStatus::Disputed);
    assert_eq!(s.apply(claim(TransactionKind::Resolve, 1, 1)), Ok(()));
    assert_eq!(s.account(1), before);
    assert_eq!(s.txs.get(&1).unwrap().status, TransactionStatus::Resolved);
}

#[test]
fn dispute_then_chargeback_locks_account() {
    let mut s = Stores::new();
    s.apply(deposit(2, 7, 20_000)).unwrap();
    s.apply(deposit(2, 8, 1_000)).unwrap();
    let before = s.account(2);
    s.apply(claim(TransactionKind::Dispute, 2, 7)).unwrap();
    let disputed = s.account(2);
    assert_eq!(s.apply(claim(TransactionKind::Chargeback, 2, 7)), Ok(()));
    let after = s.account(2);
    assert_eq!(after.held.units, disputed.held.units - 20_000);
    assert_eq!(total(&after), total(&before) - 20_000);
    assert!(after.locked);
    assert_eq!(after.available, units(1_000));
    assert_eq!(s.txs.get(&7).unwrap().status, TransactionStatus::ChargedBack);
}

#[test]
fn locked_account_rejects_everything() {
    let mut s = Stores::new();
    s.apply(deposit(4, 1, 10_000)).unwrap();
    s.apply(deposit(4, 2, 10_000)).unwrap();
    s.apply(claim(TransactionKind::Dispute, 4, 1)).unwrap();
    s.apply(claim(TransactionKind::Chargeback, 4, 1)).unwrap();
    let locked = s.account(4);
    let txs_before = s.txs.clone();
    assert_eq!(s.apply(deposit(4, 3, 1)), Err(LedgerError::AccountLocked));
    assert_eq!(s.apply(withdrawal(4, 4, 1)), Err(LedgerError::AccountLocked));
    assert_eq!(s.apply(claim(TransactionKind::Dispute, 4, 2)), Err(LedgerError::AccountLocked));
    assert_eq!(s.apply(claim(TransactionKind::Resolve, 4, 1)), Err(LedgerError::AccountLocked));
    assert_eq!(s.account(4), locked);
    assert_eq!(s.txs, txs_before);
}

#[test]
fn rejected_event_still_creates_the_account() {
    let mut s = Stores::new();
    assert_eq!(
        s.apply(claim(TransactionKind::Dispute, 9, 42)),
        Err(LedgerError::ReferencedTransactionNotFound)
    );
    assert_eq!(s.account(9), Client::default());
    assert!(s.txs.is_empty());
}

#[test]
fn claim_on_another_account_is_rejected() {
    let mut s = Stores::new();
    s.apply(deposit(1, 1, 10_000)).unwrap();
    assert_eq!(s.apply(claim(TransactionKind::Dispute, 2, 1)), Err(LedgerError::AccountMismatch));
    assert_eq!(s.txs.get(&1).unwrap().status, TransactionStatus::Started);
}

#[test]
fn status_transitions_outside_the_table_are_rejected() {
    let mut s = Stores::new();
    s.apply(deposit(1, 1, 10_000)).unwrap();
    assert_eq!(s.apply(claim(TransactionKind::Resolve, 1, 1)), Err(LedgerError::NotInDispute));
    assert_eq!(
        s.apply(claim(TransactionKind::Chargeback, 1, 1)),
        Err(LedgerError::NotDisputedOrResolved)
    );
    s.apply(claim(TransactionKind::Dispute, 1, 1)).unwrap();
    assert_eq!(s.apply(claim(TransactionKind::Dispute, 1, 1)), Err(LedgerError::AlreadyDisputed));
    s.apply(claim(TransactionKind::Resolve, 1, 1)).unwrap();
    assert_eq!(s.apply(claim(TransactionKind::Dispute, 1, 1)), Err(LedgerError::AlreadyResolved));
    assert_eq!(s.apply(claim(TransactionKind::Resolve, 1, 1)), Err(LedgerError::NotInDispute));
}

#[test]
fn chargeback_after_resolve_takes_held_below_zero() {
    let mut s = Stores::new();
    s.apply(deposit(1, 1, 10_000)).unwrap();
    s.apply(claim(TransactionKind::Dispute, 1, 1)).unwrap();
    s.apply(claim(TransactionKind::Resolve, 1, 1)).unwrap();
    assert_eq!(s.apply(claim(TransactionKind::Chargeback, 1, 1)), Ok(()));
    let a = s.account(1);
    assert_eq!(a.held, units(-10_000));
    assert_eq!(a.available, units(10_000));
    assert!(a.locked);
    assert_eq!(s.apply(claim(TransactionKind::Dispute, 1, 1)), Err(LedgerError::AccountLocked));
}

#[test]
fn dispute_after_withdrawal_takes_available_below_zero() {
    let mut s = Stores::new();
    s.apply(deposit(1, 1, 10_000)).unwrap();
    s.apply(withdrawal(1, 2, 8_000)).unwrap();
    assert_eq!(s.apply(claim(TransactionKind::Dispute, 1, 1)), Ok(()));
    let a = s.account(1);
    assert_eq!(a.available, units(-8_000));
    assert_eq!(a.held, units(10_000));
}

#[test]
fn referenced_transaction_without_amount_is_rejected() {
    let mut s = Stores::new();
    s.txs.insert(5, claim(TransactionKind::Dispute, 1, 5));
    assert_eq!(
        s.apply(claim(TransactionKind::Dispute, 1, 5)),
        Err(LedgerError::ReferencedTransactionHasNoAmount)
    );
    assert_eq!(s.txs.get(&5).unwrap().status, TransactionStatus::Started);
}

#[test]
fn balance_overflow_is_rejected() {
    let mut s = Stores::new();
    s.apply(deposit(1, 1, i128::MAX)).unwrap();
    assert_eq!(s.apply(deposit(1, 2, 1)), Err(LedgerError::AmountOutOfRange));
    assert_eq!(s.account(1).available, units(i128::MAX));
    assert!(!s.txs.contains_key(&2));
}

#[test]
fn stored_transaction_is_reset_to_started() {
    let mut s = Stores::new();
    let mut t = deposit(1, 1, 10);
    t.status = TransactionStatus::ChargedBack;
    s.apply(t).unwrap();
    assert_eq!(s.txs.get(&1).unwrap().status, TransactionStatus::Started);
}

#[test]
fn handle_all_reports_each_verdict() {
    let events = vec![
        deposit(1, 1, 10_000),
        deposit(2, 2, 20_000),
        deposit(1, 1, 10_000),
        deposit(1, 3, 20_000),
        deposit(1, 3, 20_000),
        withdrawal(1, 4, 15_000),
        withdrawal(2, 5, 30_000),
    ];
    let mut clients = HashMap::new();
    let mut txs = HashMap::new();
    let r = handle_all(&events, &mut clients, &mut txs);
    assert_eq!(
        r,
        vec![
            Ok(()),
            Ok(()),
            Err(LedgerError::DuplicateTransaction),
            Ok(()),
            Err(LedgerError::DuplicateTransaction),
            Ok(()),
            Err(LedgerError::InsufficientFunds),
        ]
    );
    assert_eq!(clients.get(&1).unwrap().available, units(15_000));
    assert_eq!(clients.get(&2).unwrap().available, units(20_000));
    assert_eq!(txs.len(), 4);
}

#[test]
fn scenario_b_by_values() {
    let events = vec![
        deposit(1, 1, 10_000),
        deposit(2, 2, 20_000),
        deposit(1, 3, 20_000),
        withdrawal(1, 4, 15_000),
        claim(TransactionKind::Dispute, 2, 2),
        claim(TransactionKind::Chargeback, 2, 2),
    ];
    let mut clients = HashMap::new();
    let mut txs = HashMap::new();
    let r = handle_all(&events, &mut clients, &mut txs);
    assert!(r.iter().all(|v| v.is_ok()));
    let c1 = clients.get(&1).unwrap();
    assert_eq!((c1.available, c1.held, c1.locked), (units(15_000), units(0), false));
    let c2 = clients.get(&2).unwrap();
    assert_eq!((c2.available, c2.held, c2.locked), (units(0), units(0), true));
}

#[test]
fn checked_total_adds_available_and_held() {
    let mut s = Stores::new();
    s.apply(deposit(1, 1, 20_000)).unwrap();
    s.apply(deposit(1, 2, 5_000)).unwrap();
    s.apply(claim(TransactionKind::Dispute, 1, 1)).unwrap();
    assert_eq!(s.account(1).checked_total(), Some(units(25_000)));
    let huge = Client { available: units(i128::MAX), held: units(1), locked: false };
    assert_eq!(huge.checked_total(), None);
}
