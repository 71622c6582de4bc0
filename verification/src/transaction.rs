use vstd::prelude::*;

use crate::types::{ClientId, TransactionId};

verus! {

/// The closed set of ledger event kinds. Deposits and withdrawals are
/// funding events that carry an amount; disputes, resolves and
/// chargebacks are reference events that name a prior funding event.
#[derive(Clone, Copy, Debug, PartialEq, Eq, Structural)]
pub enum TransactionType {
    Deposit,
    Withdrawal,
    Dispute,
    Resolve,
    Chargeback,
}

impl TransactionType {
    /// A funding event carries an amount and is retained by its account
    /// for later reference; a reference event is not retained.
    pub open spec fn is_funding(self) -> bool {
        self == TransactionType::Deposit || self == TransactionType::Withdrawal
    }
}

/// Monetary values are fixed-point integers: this many raw units make one
/// whole currency unit, so a raw amount carries eight fractional decimal
/// digits. Reports truncate them to four (see the rendering module).
pub const AMOUNT_SCALE: u64 = 100_000_000;

/// One ledger event. `amount` is in raw fixed-point units and is present
/// exactly on funding events; `disputed` starts `false` and is flipped
/// only by the account that retains the transaction.
#[derive(Clone, Copy, Debug, PartialEq)]
pub struct Transaction {
    pub type_: TransactionType,
    pub client: ClientId,
    pub tx: TransactionId,
    pub amount: Option<u64>,
    pub disputed: bool,
}

impl Transaction {
    pub fn new(
        type_: TransactionType,
        client: ClientId,
        tx: TransactionId,
        amount: Option<u64>,
        disputed: bool,
    ) -> (r: Transaction)
        ensures
            r == (Transaction { type_, client, tx, amount, disputed }),
    {
        Transaction { type_, client, tx, amount, disputed }
    }

    /// The amount a funding event moves; an absent amount counts as zero.
    pub open spec fn spec_amount(self) -> u64 {
        match self.amount {
            Some(a) => a,
            None => 0,
        }
    }

    pub fn amount(&self) -> (r: u64)
        ensures
            r == self.spec_amount(),
    {
        match self.amount {
            Some(a) => a,
            None => 0,
        }
    }

    pub fn type_(&self) -> (r: &TransactionType)
        ensures
            *r == self.type_,
    {
        &self.type_
    }

    pub fn client(&self) -> (r: &ClientId)
        ensures
            *r == self.client,
    {
        &self.client
    }

    pub fn tx(&self) -> (r: &TransactionId)
        ensures
            *r == self.tx,
    {
        &self.tx
    }

    pub fn disputed(&self) -> (r: &bool)
        ensures
            *r == self.disputed,
    {
        &self.disputed
    }

    /// Mark the retained transaction as under dispute.
    pub fn dispute(&mut self)
        ensures
            *final(self) == (Transaction { disputed: true, ..*old(self) }),
    {
        self.disputed = true;
    }

    /// Clear the dispute mark after a resolve or a chargeback.
    pub fn resolve(&mut self)
        ensures
            *final(self) == (Transaction { disputed: false, ..*old(self) }),
    {
        self.disputed = false;
    }
}

/// An ordered batch of parsed ledger events.
#[derive(Debug, Default, PartialEq)]
pub struct Transactions(pub Vec<Transaction>);

/// Failure of the ingestion collaborator that feeds events to the ledger
/// book; always fatal for the whole run, whatever the strictness policy.
#[derive(Clone, Copy, Debug, PartialEq, Eq, Structural)]
pub enum TransactionError {
    Csv,
}

} // verus!
