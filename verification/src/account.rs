use vstd::prelude::*;

use crate::transaction::{Transaction, TransactionError, TransactionType};
use crate::types::{ClientId, TransactionId};

verus! {

/// Errors the ledger surfaces. The first six are business-rule errors,
/// carrying the owning client and the offending transaction id; the last
/// wraps a fatal ingestion failure reported by the event source.
#[derive(Clone, Copy, Debug, PartialEq, Eq, Structural)]
pub enum AccountError {
    Withdrawal(ClientId, TransactionId),
    Dispute(ClientId, TransactionId),
    Resolve(ClientId, TransactionId),
    ResolveUndisputed(ClientId, TransactionId),
    Chargeback(ClientId, TransactionId),
    ChargebackUndisputed(ClientId, TransactionId),
    Transaction(TransactionError),
}

impl AccountError {
    /// Business-rule errors are recoverable: a lenient ledger book skips
    /// the offending event. An ingestion failure never is.
    pub open spec fn spec_is_business(self) -> bool {
        !(self is Transaction)
    }

    pub fn is_business(&self) -> (r: bool)
        ensures
            r == self.spec_is_business(),
    {
        !(matches!(self, AccountError::Transaction(_)))
    }
}

/// The mathematical state of one account: retained funding transactions
/// keyed by their id, and the three balances as unbounded integers.
#[verifier::ext_equal]
pub struct AccountView {
    pub client: ClientId,
    pub txs: Map<TransactionId, Transaction>,
    pub available: int,
    pub held: int,
    pub total: int,
    pub locked: bool,
}

impl AccountView {
    /// Well-formedness: the balances are consistent, and the retained map
    /// holds only funding transactions of this client, keyed by their id.
    pub open spec fn inv(self) -> bool {
        &&& self.total == self.available + self.held
        &&& forall|id: TransactionId| self.txs.contains_key(id) ==> {
            &&& (#[trigger] self.txs[id]).type_.is_funding()
            &&& self.txs[id].client == self.client
            &&& self.txs[id].tx == id
        }
    }

    /// A just-created account: empty balances, nothing retained.
    pub open spec fn fresh(client: ClientId) -> AccountView {
        AccountView {
            client,
            txs: Map::empty(),
            available: 0,
            held: 0,
            total: 0,
            locked: false,
        }
    }
}

/// What one event does to an account: the successor state and the outcome.
/// On every error the state comes back unchanged (validate-then-mutate,
/// never mutate-then-compensate). A retained transaction that is neither a
/// deposit nor a withdrawal cannot occur in a well-formed account; the
/// dispute lifecycle arms treat any non-deposit as a withdrawal.
pub open spec fn spec_apply(a: AccountView, t: Transaction) -> (AccountView, Result<
    (),
    AccountError,
>) {
    match t.type_ {
        TransactionType::Deposit => {
            let amt = t.spec_amount() as int;
            (
                AccountView {
                    available: a.available + amt,
                    total: a.total + amt,
                    txs: a.txs.insert(t.tx, t),
                    ..a
                },
                Ok(()),
            )
        },
        TransactionType::Withdrawal => {
            let amt = t.spec_amount() as int;
            if a.available < amt {
                (a, Err(AccountError::Withdrawal(a.client, t.tx)))
            } else {
                (
                    AccountView {
                        available: a.available - amt,
                        total: a.total - amt,
                        txs: a.txs.insert(t.tx, t),
                        ..a
                    },
                    Ok(()),
                )
            }
        },
        TransactionType::Dispute => {
            if !a.txs.contains_key(t.tx) {
                (a, Err(AccountError::Dispute(a.client, t.tx)))
            } else {
                let d = a.txs[t.tx];
                let amt = d.spec_amount() as int;
                let marked = Transaction { disputed: true, ..d };
                if d.type_ == TransactionType::Deposit {
                    (
                        AccountView {
                            available: a.available - amt,
                            held: a.held + amt,
                            txs: a.txs.insert(t.tx, marked),
                            ..a
                        },
                        Ok(()),
                    )
                } else {
                    // Disputing a withdrawal reasserts the funds that left:
                    // they come back provisionally, held and counted in the
                    // total, while available stays as the withdrawal left it.
                    (
                        AccountView {
                            held: a.held + amt,
                            total: a.total + amt,
                            txs: a.txs.insert(t.tx, marked),
                            ..a
                        },
                        Ok(()),
                    )
                }
            }
        },
        TransactionType::Resolve => {
            if !a.txs.contains_key(t.tx) {
                (a, Err(AccountError::Resolve(a.client, t.tx)))
            } else {
                let d = a.txs[t.tx];
                if !d.disputed {
                    (a, Err(AccountError::ResolveUndisputed(a.client, t.tx)))
                } else {
                    let amt = d.spec_amount() as int;
                    let cleared = Transaction { disputed: false, ..d };
                    if d.type_ == TransactionType::Deposit {
                        (
                            AccountView {
                                available: a.available + amt,
                                held: a.held - amt,
                                txs: a.txs.insert(t.tx, cleared),
                                ..a
                            },
                            Ok(()),
                        )
                    } else {
                        // The withdrawal stands: the provisional restoration
                        // leaves both the held and the total balance.
                        (
                            AccountView {
                                held: a.held - amt,
                                total: a.total - amt,
                                txs: a.txs.insert(t.tx, cleared),
                                ..a
                            },
                            Ok(()),
                        )
                    }
                }
            }
        },
        TransactionType::Chargeback => {
            if !a.txs.contains_key(t.tx) {
                (a, Err(AccountError::Chargeback(a.client, t.tx)))
            } else {
                let d = a.txs[t.tx];
                if !d.disputed {
                    (a, Err(AccountError::ChargebackUndisputed(a.client, t.tx)))
                } else {
                    let amt = d.spec_amount() as int;
                    let cleared = Transaction { disputed: false, ..d };
                    if d.type_ == TransactionType::Deposit {
                        (
                            AccountView {
                                held: a.held - amt,
                                total: a.total - amt,
                                txs: a.txs.insert(t.tx, cleared),
                                locked: true,
                                ..a
                            },
                            Ok(()),
                        )
                    } else {
                        // The withdrawal is reversed: the held funds become
                        // available again.
                        (
                            AccountView {
                                available: a.available + amt,
                                held: a.held - amt,
                                txs: a.txs.insert(t.tx, cleared),
                                locked: true,
                                ..a
                            },
                            Ok(()),
                        )
                    }
                }
            }
        },
    }
}

/// Machine-limit bound: the balances after the event still fit the
/// fixed-width balance representation.
pub open spec fn in_balance_range(v: int) -> bool {
    i128::MIN <= v <= i128::MAX
}

pub open spec fn apply_fits(a: AccountView, t: Transaction) -> bool {
    let post = spec_apply(a, t).0;
    &&& in_balance_range(post.available)
    &&& in_balance_range(post.held)
    &&& in_balance_range(post.total)
}

/// The retained transactions of a sequence, as a map keyed by id.
pub open spec fn tx_map(s: Seq<Transaction>) -> Map<TransactionId, Transaction> {
    Map::new(
        |id: TransactionId| exists|i: int| 0 <= i < s.len() && s[i].tx == id,
        |id: TransactionId| s[choose|i: int| 0 <= i < s.len() && s[i].tx == id],
    )
}

/// No two retained transactions share an id.
pub open spec fn unique_tx_ids(s: Seq<Transaction>) -> bool {
    forall|i: int, j: int|
        #![trigger s[i].tx, s[j].tx]
        0 <= i < j < s.len() ==> s[i].tx != s[j].tx
}

proof fn lemma_tx_map_index(s: Seq<Transaction>, i: int)
    requires
        unique_tx_ids(s),
        0 <= i < s.len(),
    ensures
        tx_map(s).contains_key(s[i].tx),
        tx_map(s)[s[i].tx] == s[i],
{
    assert(0 <= i < s.len() && s[i].tx == s[i].tx);
    let k = choose|k: int| 0 <= k < s.len() && s[k].tx == s[i].tx;
    assert(k == i);
}

proof fn lemma_tx_map_push(s: Seq<Transaction>, t: Transaction)
    requires
        unique_tx_ids(s),
        !tx_map(s).contains_key(t.tx),
    ensures
        unique_tx_ids(s.push(t)),
        tx_map(s.push(t)) =~= tx_map(s).insert(t.tx, t),
{
    let s2 = s.push(t);
    assert forall|i: int| 0 <= i < s.len() implies (#[trigger] s[i].tx) != t.tx by {
        lemma_tx_map_index(s, i);
    }
    assert(unique_tx_ids(s2)) by {
        assert forall|i: int, j: int|
            #![trigger s2[i].tx, s2[j].tx]
            0 <= i < j < s2.len() implies s2[i].tx != s2[j].tx by {
            if j < s.len() {
                assert(s2[i] == s[i] && s2[j] == s[j]);
            } else {
                assert(s2[i] == s[i] && s2[j] == t);
            }
        }
    }
    assert forall|id: TransactionId| #[trigger]
        tx_map(s2).contains_key(id) == tx_map(s).insert(t.tx, t).contains_key(id) && (tx_map(
            s2,
        ).contains_key(id) ==> tx_map(s2)[id] == tx_map(s).insert(t.tx, t)[id]) by {
        if id == t.tx {
            lemma_tx_map_index(s2, s.len() as int);
            assert(s2[s.len() as int] == t);
        } else {
            if tx_map(s).contains_key(id) {
                let i = choose|i: int| 0 <= i < s.len() && s[i].tx == id;
                lemma_tx_map_index(s, i);
                lemma_tx_map_index(s2, i);
                assert(s2[i] == s[i]);
            }
            if tx_map(s2).contains_key(id) {
                let i = choose|i: int| 0 <= i < s2.len() && s2[i].tx == id;
                assert(i < s.len());
                assert(s2[i] == s[i]);
                lemma_tx_map_index(s, i);
            }
        }
    }
}

proof fn lemma_tx_map_update(s: Seq<Transaction>, i: int, t: Transaction)
    requires
        unique_tx_ids(s),
        0 <= i < s.len(),
        t.tx == s[i].tx,
    ensures
        unique_tx_ids(s.update(i, t)),
        tx_map(s.update(i, t)) =~= tx_map(s).insert(t.tx, t),
{
    let s2 = s.update(i, t);
    assert forall|k: int| 0 <= k < s2.len() implies (#[trigger] s2[k].tx) == s[k].tx by {}
    assert(unique_tx_ids(s2));
    assert forall|id: TransactionId| #[trigger]
        tx_map(s2).contains_key(id) == tx_map(s).insert(t.tx, t).contains_key(id) && (tx_map(
            s2,
        ).contains_key(id) ==> tx_map(s2)[id] == tx_map(s).insert(t.tx, t)[id]) by {
        if id == t.tx {
            lemma_tx_map_index(s2, i);
            assert(s2[i] == t);
        } else {
            if tx_map(s).contains_key(id) {
                let k = choose|k: int| 0 <= k < s.len() && s[k].tx == id;
                lemma_tx_map_index(s, k);
                lemma_tx_map_index(s2, k);
                assert(k != i);
                assert(s2[k] == s[k]);
            }
            if tx_map(s2).contains_key(id) {
                let k = choose|k: int| 0 <= k < s2.len() && s2[k].tx == id;
                assert(k != i);
                assert(s2[k] == s[k]);
                lemma_tx_map_index(s, k);
            }
        }
    }
}

/// One client's ledger: the retained funding transactions and the three
/// balances, in raw fixed-point units. `locked` is set by a successful
/// chargeback and never reset.
#[derive(Debug)]
pub struct Account {
    client: ClientId,
    transactions: Vec<Transaction>,
    available: i128,
    held: i128,
    total: i128,
    locked: bool,
}

impl View for Account {
    type V = AccountView;

    closed spec fn view(&self) -> AccountView {
        AccountView {
            client: self.client,
            txs: tx_map(self.transactions@),
            available: self.available as int,
            held: self.held as int,
            total: self.total as int,
            locked: self.locked,
        }
    }
}

impl Account {
    /// Representation invariant on top of the model invariant: retained
    /// ids are unique, so the sequence faithfully represents the map.
    pub closed spec fn wf(self) -> bool {
        &&& unique_tx_ids(self.transactions@)
        &&& self@.inv()
    }

    pub fn new(client: ClientId) -> (r: Account)
        ensures
            r.wf(),
            r@ == AccountView::fresh(client),
    {
        let r = Account {
            client,
            transactions: Vec::new(),
            available: 0,
            held: 0,
            total: 0,
            locked: false,
        };
        proof {
            assert(r@.txs =~= Map::<TransactionId, Transaction>::empty());
            assert(r@ =~= AccountView::fresh(client));
        }
        r
    }

    pub fn client(&self) -> (r: ClientId)
        ensures
            r == self@.client,
    {
        self.client
    }

    pub fn available(&self) -> (r: i128)
        ensures
            r == self@.available,
    {
        self.available
    }

    pub fn held(&self) -> (r: i128)
        ensures
            r == self@.held,
    {
        self.held
    }

    pub fn total(&self) -> (r: i128)
        ensures
            r == self@.total,
    {
        self.total
    }

    pub fn locked(&self) -> (r: bool)
        ensures
            r == self@.locked,
    {
        self.locked
    }

    /// The retained funding transaction with this id, if any.
    pub fn retained(&self, id: TransactionId) -> (r: Option<&Transaction>)
        requires
            self.wf(),
        ensures
            match r {
                Some(t) => self@.txs.contains_key(id) && *t == self@.txs[id],
                None => !self@.txs.contains_key(id),
            },
    {
        let idx = self.find_tx_index(id);
        match idx {
            Some(i) => {
                proof {
                    lemma_tx_map_index(self.transactions@, i as int);
                }
                Some(&self.transactions[i])
            },
            None => None,
        }
    }

    fn find_tx_index(&self, id: TransactionId) -> (r: Option<usize>)
        ensures
            match r {
                Some(i) => 0 <= i < self.transactions@.len() && self.transactions@[i as int].tx
                    == id,
                None => !tx_map(self.transactions@).contains_key(id),
            },
    {
        let n = self.transactions.len();
        let mut j: usize = 0;
        while j < n
            invariant
                0 <= j <= n,
                n == self.transactions@.len(),
                forall|k: int| 0 <= k < j ==> (#[trigger] self.transactions@[k].tx) != id,
            decreases n - j,
        {
            if self.transactions[j].tx == id {
                return Some(j);
            }
            j = j + 1;
        }
        None
    }

    fn freeze(&mut self)
        ensures
            *final(self) == (Account { locked: true, ..*old(self) }),
    {
        self.locked = true;
    }

    /// Apply one event to this account. The routing precondition (the
    /// event belongs to this client), the uniqueness of funding ids and
    /// the balance-range bound are the caller's obligations: they are
    /// invariant violations or machine limits, never business errors.
    pub fn apply_transaction(&mut self, tx: Transaction) -> (r: Result<(), AccountError>)
        requires
            old(self).wf(),
            tx.client == old(self)@.client,
            tx.type_.is_funding() ==> !old(self)@.txs.contains_key(tx.tx),
            apply_fits(old(self)@, tx),
        ensures
            final(self).wf(),
            final(self)@ == spec_apply(old(self)@, tx).0,
            r == spec_apply(old(self)@, tx).1,
    {
        let ghost pre = self@;
        match tx.type_ {
            TransactionType::Deposit => {
                let amount = tx.amount();
                proof {
                    lemma_tx_map_push(self.transactions@, tx);
                }
                self.available = self.available + amount as i128;
                self.total = self.total + amount as i128;
                self.transactions.push(tx);
                proof {
                    assert(self@ =~= spec_apply(pre, tx).0);
                }
                Ok(())
            },
            TransactionType::Withdrawal => {
                let amount = tx.amount();
                if self.available < amount as i128 {
                    return Err(AccountError::Withdrawal(self.client, tx.tx));
                }
                proof {
                    lemma_tx_map_push(self.transactions@, tx);
                }
                self.available = self.available - amount as i128;
                self.total = self.total - amount as i128;
                self.transactions.push(tx);
                proof {
                    assert(self@ =~= spec_apply(pre, tx).0);
                }
                Ok(())
            },
            TransactionType::Dispute => {
                let idx = self.find_tx_index(tx.tx);
                match idx {
                    None => Err(AccountError::Dispute(self.client, tx.tx)),
                    Some(i) => {
                        proof {
                            lemma_tx_map_index(self.transactions@, i as int);
                        }
                        let amount = self.transactions[i].amount();
                        let is_deposit = matches!(
                            self.transactions[i].type_,
                            TransactionType::Deposit
                        );
                        if is_deposit {
                            self.available = self.available - amount as i128;
                            self.held = self.held + amount as i128;
                        } else {
                            self.held = self.held + amount as i128;
                            self.total = self.total + amount as i128;
                        }
                        proof {
                            let marked = Transaction { disputed: true, ..pre.txs[tx.tx] };
                            lemma_tx_map_update(self.transactions@, i as int, marked);
                        }
                        let elem = &mut self.transactions[i];
                        elem.dispute();
                        proof {
                            assert(self@ =~= spec_apply(pre, tx).0);
                        }
                        Ok(())
                    },
                }
            },
            TransactionType::Resolve => {
                let idx = self.find_tx_index(tx.tx);
                match idx {
                    None => Err(AccountError::Resolve(self.client, tx.tx)),
                    Some(i) => {
                        proof {
                            lemma_tx_map_index(self.transactions@, i as int);
                        }
                        if !self.transactions[i].disputed {
                            return Err(AccountError::ResolveUndisputed(self.client, tx.tx));
                        }
                        let amount = self.transactions[i].amount();
                        let is_deposit = matches!(
                            self.transactions[i].type_,
                            TransactionType::Deposit
                        );
                        if is_deposit {
                            self.available = self.available + amount as i128;
                            self.held = self.held - amount as i128;
                        } else {
                            self.held = self.held - amount as i128;
                            self.total = self.total - amount as i128;
                        }
                        proof {
                            let cleared = Transaction { disputed: false, ..pre.txs[tx.tx] };
                            lemma_tx_map_update(self.transactions@, i as int, cleared);
                        }
                        let elem = &mut self.transactions[i];
                        elem.resolve();
                        proof {
                            assert(self@ =~= spec_apply(pre, tx).0);
                        }
                        Ok(())
                    },
                }
            },
            TransactionType::Chargeback => {
                let idx = self.find_tx_index(tx.tx);
                match idx {
                    None => Err(AccountError::Chargeback(self.client, tx.tx)),
                    Some(i) => {
                        proof {
                            lemma_tx_map_index(self.transactions@, i as int);
                        }
                        if !self.transactions[i].disputed {
                            return Err(AccountError::ChargebackUndisputed(self.client, tx.tx));
                        }
                        let amount = self.transactions[i].amount();
                        let is_deposit = matches!(
                            self.transactions[i].type_,
                            TransactionType::Deposit
                        );
                        if is_deposit {
                            self.held = self.held - amount as i128;
                            self.total = self.total - amount as i128;
                        } else {
                            self.available = self.available + amount as i128;
                            self.held = self.held - amount as i128;
                        }
                        proof {
                            let cleared = Transaction { disputed: false, ..pre.txs[tx.tx] };
                            lemma_tx_map_update(self.transactions@, i as int, cleared);
                        }
                        let elem = &mut self.transactions[i];
                        elem.resolve();
                        self.freeze();
                        proof {
                            assert(self@ =~= spec_apply(pre, tx).0);
                        }
                        Ok(())
                    },
                }
            },
        }
    }
}

/// A well-formed account satisfies the model invariant on its view.
pub proof fn lemma_wf_implies_inv(a: &Account)
    requires
        a.wf(),
    ensures
        a@.inv(),
{
}

} // verus!
