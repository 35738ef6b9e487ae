use crate::ledger::{
    account_in, in_range, replay, step, Client, LedgerError, Transaction, TransactionKind,
    TransactionStatus,
};
use vstd::prelude::*;

verus! {

/// An event of the given kind, as a parser hands it over.
pub open spec fn event(kind: TransactionKind, client: u16, tx: u32) -> Transaction {
    Transaction { kind, client, tx, status: TransactionStatus::Started }
}

/// The signed amount that `tx` moves into `available` of account `id`:
/// a deposit's amount, minus a withdrawal's, zero for anything else.
pub open spec fn signed_amount(tx: Transaction, id: u16) -> int {
    if tx.client != id {
        0
    } else {
        match tx.kind {
            TransactionKind::Deposit { amount } => amount.value(),
            TransactionKind::Withdrawal { amount } => -amount.value(),
            _ => 0,
        }
    }
}

/// Accepted deposits minus accepted withdrawals of account `id`, over `events`
/// applied in order from `clients` and `txs`.
pub open spec fn accepted_flow(
    events: Seq<Transaction>,
    clients: Map<u16, Client>,
    txs: Map<u32, Transaction>,
    id: u16,
) -> int
    decreases events.len(),
{
    if events.len() == 0 {
        0
    } else {
        let (v, c2, t2) = step(events[0], clients, txs);
        let here = if v is Ok {
            signed_amount(events[0], id)
        } else {
            0
        };
        here + accepted_flow(events.drop_first(), c2, t2, id)
    }
}

/// A deposit or withdrawal whose transaction id is already stored is rejected
/// as a duplicate: the account's balances and the transaction store stay as
/// they were.
pub proof fn lemma_duplicate_rejected(
    tx: Transaction,
    clients: Map<u16, Client>,
    txs: Map<u32, Transaction>,
)
    requires
        tx.kind.moves_money(),
        txs.contains_key(tx.tx),
        !account_in(clients, tx.client).locked,
    ensures
        ({
            let (r, c2, t2) = step(tx, clients, txs);
            &&& r == Err::<(), LedgerError>(LedgerError::DuplicateTransaction)
            &&& account_in(c2, tx.client) == account_in(clients, tx.client)
            &&& t2 == txs
        }),
{
}

/// Over deposits and withdrawals alone, an account's `available` grows by
/// exactly the accepted deposits and shrinks by exactly the accepted
/// withdrawals, and its `held` does not move.
pub proof fn lemma_balance_conservation(
    events: Seq<Transaction>,
    clients: Map<u16, Client>,
    txs: Map<u32, Transaction>,
    id: u16,
)
    requires
        forall|i: int| 0 <= i < events.len() ==> (#[trigger] events[i]).kind.moves_money(),
    ensures
        ({
            let before = account_in(clients, id);
            let after = account_in(replay(events, clients, txs).0, id);
            &&& after.available.value() == before.available.value() + accepted_flow(
                events,
                clients,
                txs,
                id,
            )
            &&& after.held == before.held
        }),
    decreases events.len(),
{
    if events.len() > 0 {
        let (v, c2, t2) = step(events[0], clients, txs);
        let rest = events.drop_first();
        assert forall|i: int| 0 <= i < rest.len() implies (#[trigger] rest[i]).kind.moves_money() by {
            assert(rest[i] == events[i + 1]);
        }
        assert(events[0].kind.moves_money());
        lemma_balance_conservation(rest, c2, t2, id);
    }
}

/// For an undisputed deposit or withdrawal of amount `a`, a dispute followed
/// by a resolve gives the account back exactly as it was, and the dispute
/// alone leaves its total unchanged.
pub proof fn lemma_dispute_then_resolve(
    clients: Map<u16, Client>,
    txs: Map<u32, Transaction>,
    client: u16,
    id: u32,
)
    requires
        txs.contains_key(id),
        txs[id].client == client,
        txs[id].status == TransactionStatus::Started,
        txs[id].kind.moves_money(),
        !account_in(clients, client).locked,
        in_range(
            account_in(clients, client).available.value() - txs[id].kind.amount()->Some_0.value(),
        ),
        in_range(
            account_in(clients, client).held.value() + txs[id].kind.amount()->Some_0.value(),
        ),
    ensures
        ({
            let (r1, c1, t1) = step(event(TransactionKind::Dispute, client, id), clients, txs);
            let (r2, c2, t2) = step(event(TransactionKind::Resolve, client, id), c1, t1);
            &&& r1 is Ok
            &&& r2 is Ok
            &&& account_in(c1, client).total() == account_in(clients, client).total()
            &&& account_in(c2, client) == account_in(clients, client)
            &&& account_in(c2, client).total() == account_in(clients, client).total()
        }),
{
}

/// A dispute followed by a chargeback on amount `a` takes `a` out of `held`
/// and out of the total, and locks the account.
pub proof fn lemma_dispute_then_chargeback(
    clients: Map<u16, Client>,
    txs: Map<u32, Transaction>,
    client: u16,
    id: u32,
)
    requires
        txs.contains_key(id),
        txs[id].client == client,
        txs[id].status == TransactionStatus::Started,
        txs[id].kind.moves_money(),
        !account_in(clients, client).locked,
        in_range(
            account_in(clients, client).available.value() - txs[id].kind.amount()->Some_0.value(),
        ),
        in_range(
            account_in(clients, client).held.value() + txs[id].kind.amount()->Some_0.value(),
        ),
    ensures
        ({
            let a = txs[id].kind.amount()->Some_0.value();
            let before = account_in(clients, client);
            let (r1, c1, t1) = step(event(TransactionKind::Dispute, client, id), clients, txs);
            let (r2, c2, t2) = step(event(TransactionKind::Chargeback, client, id), c1, t1);
            let disputed = account_in(c1, client);
            let after = account_in(c2, client);
            &&& r1 is Ok
            &&& r2 is Ok
            &&& after.held.value() == disputed.held.value() - a
            &&& after.total() == before.total() - a
            &&& after.locked
        }),
{
}

/// Once an account is locked, every event for it is rejected and neither
/// store changes.
pub proof fn lemma_locked_is_final(
    tx: Transaction,
    clients: Map<u16, Client>,
    txs: Map<u32, Transaction>,
)
    requires
        account_in(clients, tx.client).locked,
    ensures
        step(tx, clients, txs) == (Err::<(), LedgerError>(LedgerError::AccountLocked), clients, txs),
{
    assert(clients.insert(tx.client, account_in(clients, tx.client)) =~= clients);
}

} // verus!
