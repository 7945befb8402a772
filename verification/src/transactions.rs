//! The transaction model: the five transaction kinds and the immutable
//! record the ledger engine consumes. Amounts are fixed-precision decimals
//! held as ten-thousandths (see `amount`), so a record is normalized by
//! construction.

use vstd::prelude::*;

verus! {

/// The five transaction kinds.
#[derive(Clone, Copy, Debug, PartialEq, Eq, Structural)]
pub enum TransactionType {
    Deposit,
    Withdrawal,
    Dispute,
    Resolve,
    Chargeback,
}

/// One transaction record. `amount` is a count of ten-thousandths and is
/// carried by deposits and withdrawals; dispute, resolve and chargeback
/// reference a prior transaction through `tx` and carry no amount.
#[derive(Clone, Copy, Debug, PartialEq)]
pub struct Transaction {
    pub payment_type: TransactionType,
    pub client: u16,
    pub tx: u32,
    pub amount: Option<i64>,
}

/// The amount a transaction carries, as a mathematical integer; zero when
/// it carries none.
pub open spec fn spec_amount(t: Transaction) -> int {
    match t.amount {
        Some(a) => a as int,
        None => 0,
    }
}

impl Transaction {
    /// A well-formed record carries a non-negative amount exactly when it
    /// is a deposit or a withdrawal. Ingestion rejects anything else
    /// before it reaches the engine.
    pub open spec fn wf(self) -> bool {
        match self.payment_type {
            TransactionType::Deposit | TransactionType::Withdrawal => self.amount matches Some(a)
                && a >= 0,
            _ => self.amount is None,
        }
    }

    pub fn new_deposit(client: u16, tx: u32, amount: Option<i64>) -> (t: Transaction)
        ensures
            t == (Transaction {
                payment_type: TransactionType::Deposit,
                client,
                tx,
                amount,
            }),
    {
        Transaction { payment_type: TransactionType::Deposit, client, tx, amount }
    }

    pub fn new_withdrawal(client: u16, tx: u32, amount: Option<i64>) -> (t: Transaction)
        ensures
            t == (Transaction {
                payment_type: TransactionType::Withdrawal,
                client,
                tx,
                amount,
            }),
    {
        Transaction { payment_type: TransactionType::Withdrawal, client, tx, amount }
    }

    pub fn new_dispute(client: u16, tx: u32) -> (t: Transaction)
        ensures
            t == (Transaction {
                payment_type: TransactionType::Dispute,
                client,
                tx,
                amount: None,
            }),
    {
        Transaction { payment_type: TransactionType::Dispute, client, tx, amount: None }
    }

    pub fn new_resolve(client: u16, tx: u32) -> (t: Transaction)
        ensures
            t == (Transaction {
                payment_type: TransactionType::Resolve,
                client,
                tx,
                amount: None,
            }),
    {
        Transaction { payment_type: TransactionType::Resolve, client, tx, amount: None }
    }

    pub fn new_chargeback(client: u16, tx: u32) -> (t: Transaction)
        ensures
            t == (Transaction {
                payment_type: TransactionType::Chargeback,
                client,
                tx,
                amount: None,
            }),
    {
        Transaction { payment_type: TransactionType::Chargeback, client, tx, amount: None }
    }
}

} // verus!
